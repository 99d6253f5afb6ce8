use vstd::prelude::*;
use crate::accounts::{
    Data, MappingAccount, MappingView, PriceAccount, ProductAccount, ProductAccountView,
    ProductData, ProductDataView, spec_referenced_products, referenced_products,
};
use crate::assoc::{find_idx, has_key, lemma_find_idx, KeyedStore};
use crate::decode::{
    decode_mapping_account, decode_price_account, decode_product_account, mapping_decode_of,
    price_decode_of, product_decode_of, DecodeError,
};
use crate::keys::{distinct_seq, is_sentinel, key_is_sentinel, keys_contain, AccountKey};

verus! {

/// Where a poll rebuild stands: walking the mapping chain, fetching the
/// queued product accounts, walking the current product's price chain,
/// refetching every listed price account, or complete.
#[derive(Clone, Copy, Debug, PartialEq, Eq)]
pub enum PollPhase {
    Mappings,
    Products,
    PriceWalk,
    PriceFetch,
    Done,
}

/// What the caller must do next: read one account's raw bytes and feed
/// them back, or commit the completed rebuild.
#[derive(Clone, Copy, Debug)]
pub enum PollAction {
    Fetch(AccountKey),
    Commit,
}

/// Inserting into an association sequence: replace the first entry for the
/// key in place, or append a fresh entry.
pub open spec fn insert_entry<K, V>(s: Seq<(K, V)>, k: K, v: V) -> Seq<(K, V)> {
    if has_key(s, k) {
        s.update(find_idx(s, k), (k, v))
    } else {
        s.push((k, v))
    }
}

pub open spec fn distinct_keys<K, V>(s: Seq<(K, V)>) -> bool {
    forall|i: int, j: int| 0 <= i < j < s.len() ==> s[i].0 != s[j].0
}

pub proof fn lemma_insert_entry<K, V>(s: Seq<(K, V)>, k: K, v: V)
    requires
        distinct_keys(s),
    ensures
        distinct_keys(insert_entry(s, k, v)),
        forall|x: K| has_key(insert_entry(s, k, v), x) <==> (has_key(s, x) || x == k),
        forall|i: int|
            0 <= i < insert_entry(s, k, v).len() ==> (#[trigger] insert_entry(s, k, v)[i] == (
            k,
            v,
            ) || (0 <= i < s.len() && insert_entry(s, k, v)[i] == s[i])),
{
    lemma_find_idx(s, k);
    let s2 = insert_entry(s, k, v);
    if has_key(s, k) {
        let f = find_idx(s, k);
        assert forall|x: K| has_key(s2, x) implies has_key(s, x) || x == k by {
            let i = choose|i: int| 0 <= i < s2.len() && s2[i].0 == x;
            if i != f {
                assert(s[i].0 == x);
            }
        }
        assert forall|x: K| has_key(s, x) implies has_key(s2, x) by {
            let i = choose|i: int| 0 <= i < s.len() && s[i].0 == x;
            if i == f {
                assert(s2[i].0 == x);
            } else {
                assert(s2[i].0 == x);
            }
        }
        assert(s2[f].0 == k);
    } else {
        assert(s2[s.len() as int].0 == k);
        assert forall|x: K| has_key(s2, x) implies has_key(s, x) || x == k by {
            let i = choose|i: int| 0 <= i < s2.len() && s2[i].0 == x;
            if i < s.len() {
                assert(s[i].0 == x);
            }
        }
        assert forall|x: K| has_key(s, x) implies has_key(s2, x) by {
            let i = choose|i: int| 0 <= i < s.len() && s[i].0 == x;
            assert(s2[i].0 == x);
        }
    }
}

/// The full ghost state of a poll rebuild.
#[verifier::ext_equal]
pub ghost struct MachineView {
    pub phase: PollPhase,
    pub cursor: AccountKey,
    pub mappings: Seq<(AccountKey, MappingView)>,
    pub queue: Seq<AccountKey>,
    pub next_product: int,
    pub products: Seq<(AccountKey, ProductAccountView)>,
    pub cur_product_key: AccountKey,
    pub cur_product: ProductDataView,
    pub cur_price_keys: Seq<AccountKey>,
    pub prices: Seq<(AccountKey, PriceAccount)>,
    pub pc_i: int,
    pub pc_j: int,
}

/// Move to fetching the next queued product, or on an exhausted queue to
/// the price-refetch pass.
pub open spec fn adv_products(m: MachineView) -> (MachineView, PollAction) {
    if m.next_product < m.queue.len() {
        (
            MachineView { phase: PollPhase::Products, ..m },
            PollAction::Fetch(m.queue[m.next_product]),
        )
    } else {
        adv_prices(MachineView { phase: PollPhase::PriceFetch, pc_i: 0, pc_j: 0, ..m })
    }
}

/// Move the refetch cursor to the next listed price key, skipping products
/// whose lists are exhausted; with nothing left the rebuild is complete.
pub open spec fn adv_prices(m: MachineView) -> (MachineView, PollAction)
    decreases m.products.len() - m.pc_i,
{
    if m.pc_i < 0 || m.pc_i >= m.products.len() {
        (MachineView { phase: PollPhase::Done, pc_i: m.products.len() as int, pc_j: 0, ..m },
        PollAction::Commit)
    } else if m.pc_j < 0 || m.pc_j >= m.products[m.pc_i].1.price_accounts.len() {
        adv_prices(MachineView { pc_i: m.pc_i + 1, pc_j: 0, ..m })
    } else {
        (m, PollAction::Fetch(m.products[m.pc_i].1.price_accounts[m.pc_j]))
    }
}

/// One mapping-chain step: record the node, queue its referenced products,
/// and follow `next` unless it is the sentinel.
pub open spec fn step_mapping(m: MachineView, rec: MappingView) -> (MachineView, PollAction) {
    let m1 = MachineView {
        mappings: insert_entry(m.mappings, m.cursor, rec),
        queue: m.queue + spec_referenced_products(rec),
        ..m
    };
    if !is_sentinel(rec.next) {
        (MachineView { cursor: rec.next, ..m1 }, PollAction::Fetch(rec.next))
    } else {
        adv_products(m1)
    }
}

/// One product step: start walking the product's price chain, or record it
/// at once when the chain is empty.
pub open spec fn step_product(m: MachineView, rec: ProductDataView) -> (MachineView, PollAction) {
    let k = m.queue[m.next_product];
    if !is_sentinel(rec.px_acc) {
        (
            MachineView {
                phase: PollPhase::PriceWalk,
                cursor: rec.px_acc,
                next_product: m.next_product + 1,
                cur_product_key: k,
                cur_product: rec,
                cur_price_keys: Seq::empty(),
                ..m
            },
            PollAction::Fetch(rec.px_acc),
        )
    } else {
        adv_products(
            MachineView {
                next_product: m.next_product + 1,
                products: insert_entry(
                    m.products,
                    k,
                    ProductAccountView { account_data: rec, price_accounts: Seq::empty() },
                ),
                ..m
            },
        )
    }
}

/// One price-chain step: record the discovered key and follow `next`; at
/// the sentinel the finished product enters the graph with its list.
pub open spec fn step_price_walk(m: MachineView, rec: PriceAccount) -> (MachineView, PollAction) {
    let keys2 = if m.cur_price_keys.contains(m.cursor) {
        m.cur_price_keys
    } else {
        m.cur_price_keys.push(m.cursor)
    };
    if !is_sentinel(rec.next) {
        (
            MachineView { cursor: rec.next, cur_price_keys: keys2, ..m },
            PollAction::Fetch(rec.next),
        )
    } else {
        adv_products(
            MachineView {
                products: insert_entry(
                    m.products,
                    m.cur_product_key,
                    ProductAccountView {
                        account_data: m.cur_product,
                        price_accounts: keys2,
                    },
                ),
                cur_price_keys: keys2,
                ..m
            },
        )
    }
}

/// One refetch step: store the freshly read price account under the listed
/// key and move the cursor on.
pub open spec fn step_price_fetch(m: MachineView, rec: PriceAccount) -> (MachineView, PollAction) {
    let k = m.products[m.pc_i].1.price_accounts[m.pc_j];
    adv_prices(MachineView { prices: insert_entry(m.prices, k, rec), pc_j: m.pc_j + 1, ..m })
}

/// The whole transition on raw bytes: decode as the phase demands, then
/// step; a decode failure leaves the machine unchanged.
pub open spec fn poll_step(m: MachineView, bytes: Seq<u8>) -> Result<
    (MachineView, PollAction),
    DecodeError,
> {
    match m.phase {
        PollPhase::Mappings => match mapping_decode_of(bytes) {
            Ok(rec) => Ok(step_mapping(m, rec)),
            Err(e) => Err(e),
        },
        PollPhase::Products => match product_decode_of(bytes) {
            Ok(rec) => Ok(step_product(m, rec)),
            Err(e) => Err(e),
        },
        PollPhase::PriceWalk => match price_decode_of(bytes) {
            Ok(rec) => Ok(step_price_walk(m, rec)),
            Err(e) => Err(e),
        },
        PollPhase::PriceFetch => match price_decode_of(bytes) {
            Ok(rec) => Ok(step_price_fetch(m, rec)),
            Err(e) => Err(e),
        },
        PollPhase::Done => Err(DecodeError::InvalidAccountData),
    }
}

/// Structural well-formedness of the machine state.
pub open spec fn machine_wf(m: MachineView) -> bool {
    &&& distinct_keys(m.mappings)
    &&& distinct_keys(m.products)
    &&& distinct_keys(m.prices)
    &&& 0 <= m.next_product <= m.queue.len()
    &&& (m.phase == PollPhase::Products ==> m.next_product < m.queue.len())
    &&& (m.phase == PollPhase::PriceFetch ==> 0 <= m.pc_i < m.products.len() && 0 <= m.pc_j
        < m.products[m.pc_i].1.price_accounts.len())
    &&& (m.phase == PollPhase::Done ==> m.pc_i == m.products.len())
    &&& (m.phase == PollPhase::PriceWalk ==> distinct_seq(m.cur_price_keys))
    &&& (forall|i: int|
        0 <= i < m.products.len() ==> distinct_seq(#[trigger] m.products[i].1.price_accounts))
}

/// A price key some product's list names at a pair the refetch cursor has
/// already passed.
pub open spec fn processed_price_key(m: MachineView, k: AccountKey) -> bool {
    exists|i: int, j: int|
        0 <= i < m.products.len() && 0 <= j < m.products[i].1.price_accounts.len() && (i < m.pc_i
            || (i == m.pc_i && j < m.pc_j)) && m.products[i].1.price_accounts[j] == k
}

/// A price key reachable from some product's price-account list.
pub open spec fn reachable_price_key(
    products: Seq<(AccountKey, ProductAccountView)>,
    k: AccountKey,
) -> bool {
    exists|i: int, j: int|
        0 <= i < products.len() && 0 <= j < products[i].1.price_accounts.len()
            && products[i].1.price_accounts[j] == k
}

/// The price store holds exactly what the refetch pass has covered so far;
/// before that pass it is empty.
pub open spec fn prices_inv(m: MachineView) -> bool {
    match m.phase {
        PollPhase::Mappings | PollPhase::Products | PollPhase::PriceWalk => m.prices.len() == 0,
        PollPhase::PriceFetch | PollPhase::Done => forall|k: AccountKey|
            has_key(m.prices, k) <==> processed_price_key(m, k),
    }
}

pub open spec fn machine_inv(m: MachineView) -> bool {
    machine_wf(m) && prices_inv(m)
}

/// After a completed rebuild the price map holds a key if and only if it
/// is reachable by walking some product's price-account list: the poll
/// discovers every listed key and nothing else.
pub proof fn lemma_poll_rebuild_complete(m: MachineView)
    requires
        machine_inv(m),
        m.phase == PollPhase::Done,
    ensures
        forall|k: AccountKey| has_key(m.prices, k) <==> reachable_price_key(m.products, k),
{
    assert forall|k: AccountKey| has_key(m.prices, k) <==> reachable_price_key(m.products, k) by {
        if reachable_price_key(m.products, k) {
            let (i, j) = choose|i: int, j: int|
                0 <= i < m.products.len() && 0 <= j < m.products[i].1.price_accounts.len()
                    && m.products[i].1.price_accounts[j] == k;
            assert(i < m.pc_i);
            assert(processed_price_key(m, k));
        }
        if processed_price_key(m, k) {
            let (i, j) = choose|i: int, j: int|
                0 <= i < m.products.len() && 0 <= j < m.products[i].1.price_accounts.len() && (i
                    < m.pc_i || (i == m.pc_i && j < m.pc_j)) && m.products[i].1.price_accounts[j]
                    == k;
            assert(reachable_price_key(m.products, k));
        }
    }
}

/// `adv_prices` keeps the invariant: skipping exhausted lists passes no
/// key, and reaching the end means every pair was passed.
pub proof fn lemma_adv_prices_inv(m: MachineView)
    requires
        distinct_keys(m.mappings),
        distinct_keys(m.products),
        distinct_keys(m.prices),
        0 <= m.next_product <= m.queue.len(),
        m.phase == PollPhase::PriceFetch,
        0 <= m.pc_i <= m.products.len(),
        0 <= m.pc_j,
        m.pc_i < m.products.len() ==> m.pc_j <= m.products[m.pc_i].1.price_accounts.len(),
        forall|i: int|
            0 <= i < m.products.len() ==> distinct_seq(#[trigger] m.products[i].1.price_accounts),
        forall|k: AccountKey| has_key(m.prices, k) <==> processed_price_key(m, k),
    ensures
        machine_inv(adv_prices(m).0),
        adv_prices(m).0.phase == PollPhase::PriceFetch || adv_prices(m).0.phase == PollPhase::Done,
        adv_prices(m).0.mappings == m.mappings,
        adv_prices(m).0.queue == m.queue,
        adv_prices(m).0.products == m.products,
        adv_prices(m).0.prices == m.prices,
        (adv_prices(m).0.phase == PollPhase::Done <==> adv_prices(m).1 is Commit),
    decreases m.products.len() - m.pc_i,
{
    if m.pc_i >= m.products.len() {
        let m2 = adv_prices(m).0;
        assert forall|k: AccountKey| has_key(m2.prices, k) <==> processed_price_key(m2, k) by {
            if has_key(m2.prices, k) {
                assert(processed_price_key(m, k));
                let (i, j) = choose|i: int, j: int|
                    0 <= i < m.products.len() && 0 <= j < m.products[i].1.price_accounts.len() && (
                    i < m.pc_i || (i == m.pc_i && j < m.pc_j))
                        && m.products[i].1.price_accounts[j] == k;
                assert(i < m2.pc_i || (i == m2.pc_i && j < m2.pc_j));
            }
            if processed_price_key(m2, k) {
                let (i, j) = choose|i: int, j: int|
                    0 <= i < m2.products.len() && 0 <= j < m2.products[i].1.price_accounts.len()
                        && (i < m2.pc_i || (i == m2.pc_i && j < m2.pc_j))
                        && m2.products[i].1.price_accounts[j] == k;
                assert(i < m.pc_i || (i == m.pc_i && j < m.pc_j));
                assert(processed_price_key(m, k));
            }
        }
    } else if m.pc_j >= m.products[m.pc_i].1.price_accounts.len() {
        let mm = MachineView { pc_i: m.pc_i + 1, pc_j: 0, ..m };
        assert forall|k: AccountKey| has_key(mm.prices, k) <==> processed_price_key(mm, k) by {
            if has_key(mm.prices, k) {
                assert(processed_price_key(m, k));
                let (i, j) = choose|i: int, j: int|
                    0 <= i < m.products.len() && 0 <= j < m.products[i].1.price_accounts.len() && (
                    i < m.pc_i || (i == m.pc_i && j < m.pc_j))
                        && m.products[i].1.price_accounts[j] == k;
                assert(mm.products == m.products);
                assert(mm.products[i].1.price_accounts[j] == k);
                assert(i < mm.pc_i || (i == mm.pc_i && j < mm.pc_j));
                assert(processed_price_key(mm, k));
            }
            if processed_price_key(mm, k) {
                let (i, j) = choose|i: int, j: int|
                    0 <= i < mm.products.len() && 0 <= j < mm.products[i].1.price_accounts.len()
                        && (i < mm.pc_i || (i == mm.pc_i && j < mm.pc_j))
                        && mm.products[i].1.price_accounts[j] == k;
                assert(i < m.pc_i || (i == m.pc_i && j < m.pc_j));
                assert(processed_price_key(m, k));
            }
        }
        lemma_adv_prices_inv(mm);
    } else {
    }
}


/// `adv_products` keeps the invariant when the price store is still empty.
pub proof fn lemma_adv_products_inv(m: MachineView)
    requires
        distinct_keys(m.mappings),
        distinct_keys(m.products),
        0 <= m.next_product <= m.queue.len(),
        m.prices.len() == 0,
        forall|i: int|
            0 <= i < m.products.len() ==> distinct_seq(#[trigger] m.products[i].1.price_accounts),
    ensures
        machine_inv(adv_products(m).0),
        adv_products(m).0.mappings == m.mappings,
        adv_products(m).0.queue == m.queue,
        adv_products(m).0.products == m.products,
        adv_products(m).0.prices == m.prices,
        (adv_products(m).0.phase == PollPhase::Done <==> adv_products(m).1 is Commit),
{
    if m.next_product < m.queue.len() {
    } else {
        let mm = MachineView { phase: PollPhase::PriceFetch, pc_i: 0, pc_j: 0, ..m };
        assert forall|k: AccountKey| has_key(mm.prices, k) <==> processed_price_key(mm, k) by {
            if has_key(mm.prices, k) {
                let i = choose|i: int| 0 <= i < mm.prices.len() && mm.prices[i].0 == k;
                assert(false);
            }
            if processed_price_key(mm, k) {
                let (i, j) = choose|i: int, j: int|
                    0 <= i < mm.products.len() && 0 <= j < mm.products[i].1.price_accounts.len()
                        && (i < mm.pc_i || (i == mm.pc_i && j < mm.pc_j))
                        && mm.products[i].1.price_accounts[j] == k;
                assert(false);
            }
        }
        lemma_adv_prices_inv(mm);
    }
}

/// Inserting a value into an association sequence commutes with taking
/// entry views.
pub proof fn lemma_mapped_insert<K, V: View>(
    pre: Seq<(K, V)>,
    post: Seq<(K, V)>,
    k: K,
    v: V,
)
    requires
        has_key(pre, k) ==> post =~= pre.update(find_idx(pre, k), (k, v)),
        !has_key(pre, k) ==> post =~= pre.push((k, v)),
    ensures
        crate::assoc::mapped_entries(post) =~= insert_entry(
            crate::assoc::mapped_entries(pre),
            k,
            v@,
        ),
{
    lemma_find_idx(pre, k);
    crate::assoc::lemma_find_idx_same_keys(pre, crate::assoc::mapped_entries(pre), k);
}

/// The executable poll rebuild: fed one account's bytes at a time, it
/// walks the mapping chain, fetches every referenced product, walks each
/// product's price chain, and finally refetches every listed price
/// account.  Its whole behaviour is `poll_step` on its view.
pub struct PollMachine {
    phase: PollPhase,
    cursor: AccountKey,
    mappings: KeyedStore<MappingAccount>,
    queue: Vec<AccountKey>,
    next_product: usize,
    products: KeyedStore<ProductAccount>,
    cur_product_key: AccountKey,
    cur_product: ProductData,
    cur_price_keys: Vec<AccountKey>,
    prices: KeyedStore<PriceAccount>,
    pc_i: usize,
    pc_j: usize,
}

impl View for PollMachine {
    type V = MachineView;

    closed spec fn view(&self) -> MachineView {
        MachineView {
            phase: self.phase,
            cursor: self.cursor,
            mappings: crate::assoc::mapped_entries(self.mappings.entries_view()),
            queue: self.queue@,
            next_product: self.next_product as int,
            products: crate::assoc::mapped_entries(self.products.entries_view()),
            cur_product_key: self.cur_product_key,
            cur_product: self.cur_product@,
            cur_price_keys: self.cur_price_keys@,
            prices: self.prices.entries_view(),
            pc_i: self.pc_i as int,
            pc_j: self.pc_j as int,
        }
    }
}

/// The machine a poll cycle starts from, and its first action: fetch the
/// root mapping account, or commit an empty graph when the root is already
/// the sentinel (a chain of zero nodes ends after zero fetches).
pub open spec fn poll_start(root: AccountKey) -> (MachineView, PollAction) {
    let m0 = MachineView {
        phase: PollPhase::Mappings,
        cursor: root,
        mappings: Seq::empty(),
        queue: Seq::empty(),
        next_product: 0,
        products: Seq::empty(),
        cur_product_key: root,
        cur_product: ProductDataView { px_acc: root, attrs: Seq::empty() },
        cur_price_keys: Seq::empty(),
        prices: Seq::empty(),
        pc_i: 0,
        pc_j: 0,
    };
    if is_sentinel(root) {
        adv_products(m0)
    } else {
        (m0, PollAction::Fetch(root))
    }
}

impl PollMachine {
    /// Begin a poll rebuild rooted at the configured mapping-account key.
    pub fn start(root: AccountKey) -> (r: (PollMachine, PollAction))
        ensures
            r.0@ =~= poll_start(root).0,
            r.1 == poll_start(root).1,
            machine_inv(r.0@),
            (r.0@.phase == PollPhase::Done <==> r.1 is Commit),
    {
        let mut m = PollMachine {
            phase: PollPhase::Mappings,
            cursor: root,
            mappings: KeyedStore::new(),
            queue: Vec::new(),
            next_product: 0,
            products: KeyedStore::new(),
            cur_product_key: root,
            cur_product: ProductData { px_acc: root, attrs: Vec::new() },
            cur_price_keys: Vec::new(),
            prices: KeyedStore::new(),
            pc_i: 0,
            pc_j: 0,
        };
        let ghost m0 = m@;
        proof {
            assert(m0.cur_product =~= ProductDataView { px_acc: root, attrs: Seq::empty() });
            assert(m0 =~= MachineView {
                phase: PollPhase::Mappings,
                cursor: root,
                mappings: Seq::empty(),
                queue: Seq::empty(),
                next_product: 0,
                products: Seq::empty(),
                cur_product_key: root,
                cur_product: ProductDataView { px_acc: root, attrs: Seq::empty() },
                cur_price_keys: Seq::empty(),
                prices: Seq::empty(),
                pc_i: 0,
                pc_j: 0,
            });
        }
        if key_is_sentinel(&root) {
            let a = m.advance_products();
            proof {
                lemma_adv_products_inv(m0);
            }
            (m, a)
        } else {
            (m, PollAction::Fetch(root))
        }
    }

    /// Whether the rebuild is complete.
    pub fn is_done(&self) -> (r: bool)
        ensures
            r == (self@.phase == PollPhase::Done),
    {
        match self.phase {
            PollPhase::Done => true,
            _ => false,
        }
    }

    /// The completed rebuild as the new authoritative snapshot.
    pub fn into_data(self) -> (d: Data)
        requires
            self@.phase == PollPhase::Done,
            machine_inv(self@),
        ensures
            d@.mappings == self@.mappings,
            d@.products == self@.products,
            d@.prices == self@.prices,
            d.wf(),
            forall|k: AccountKey| has_key(d@.prices, k) <==> reachable_price_key(d@.products, k),
            forall|i: int|
                0 <= i < d@.products.len() ==> distinct_seq(
                    #[trigger] d@.products[i].1.price_accounts,
                ),
    {
        proof {
            lemma_poll_rebuild_complete(self@);
            assert(forall|i: int|
                0 <= i < self.mappings.entries_view().len() ==> self.mappings.entries_view()[i].0
                    == self@.mappings[i].0);
            assert(forall|i: int|
                0 <= i < self.products.entries_view().len() ==> self.products.entries_view()[i].0
                    == self@.products[i].0);
        }
        Data {
            mapping_accounts: self.mappings,
            product_accounts: self.products,
            price_accounts: self.prices,
        }
    }

    fn advance_products(&mut self) -> (a: PollAction)
        requires
            0 <= old(self)@.next_product <= old(self)@.queue.len(),
        ensures
            final(self)@ =~= adv_products(old(self)@).0,
            a == adv_products(old(self)@).1,
    {
        if self.next_product < self.queue.len() {
            self.phase = PollPhase::Products;
            PollAction::Fetch(self.queue[self.next_product])
        } else {
            self.phase = PollPhase::PriceFetch;
            self.pc_i = 0;
            self.pc_j = 0;
            let a = self.advance_prices();
            a
        }
    }

    /// Whether the refetch cursor stands on a product whose list is spent.
    fn cursor_skips_exhausted(&self) -> (r: bool)
        requires
            0 <= self@.pc_i <= self@.products.len(),
        ensures
            r == (self@.pc_i < self@.products.len() && self@.pc_j
                >= self@.products[self@.pc_i].1.price_accounts.len()),
    {
        if self.pc_i < self.products.len() {
            let n = self.products.value_at(self.pc_i).price_accounts.len();
            self.pc_j >= n
        } else {
            false
        }
    }

    fn advance_prices(&mut self) -> (a: PollAction)
        requires
            old(self)@.phase == PollPhase::PriceFetch,
            0 <= old(self)@.pc_i <= old(self)@.products.len(),
        ensures
            final(self)@ =~= adv_prices(old(self)@).0,
            a == adv_prices(old(self)@).1,
    {
        while self.cursor_skips_exhausted()
            invariant
                self@.phase == PollPhase::PriceFetch,
                0 <= self@.pc_i <= self@.products.len(),
                adv_prices(self@).0 =~= adv_prices(old(self)@).0,
                adv_prices(self@).1 == adv_prices(old(self)@).1,
            decreases self@.products.len() - self@.pc_i,
        {
            let ghost prev = self@;
            let n = self.products.len();
            self.pc_i = self.pc_i + 1;
            self.pc_j = 0;
            proof {
                assert(self@ =~= MachineView { pc_i: prev.pc_i + 1, pc_j: 0, ..prev });
                assert(adv_prices(prev).0 =~= adv_prices(self@).0);
                assert(adv_prices(prev).1 == adv_prices(self@).1);
            }
        }
        if self.pc_i < self.products.len() {
            let k = self.products.value_at(self.pc_i).price_accounts[self.pc_j];
            PollAction::Fetch(k)
        } else {
            let ghost prev = self@;
            self.phase = PollPhase::Done;
            self.pc_j = 0;
            proof {
                assert(self@ =~= MachineView {
                    phase: PollPhase::Done,
                    pc_i: prev.products.len() as int,
                    pc_j: 0,
                    ..prev
                });
                assert(adv_prices(prev).0 =~= self@);
            }
            PollAction::Commit
        }
    }
}


fn clone_keys(v: &Vec<AccountKey>) -> (r: Vec<AccountKey>)
    ensures
        r@ == v@,
{
    let mut out: Vec<AccountKey> = Vec::new();
    let mut i: usize = 0;
    while i < v.len()
        invariant
            0 <= i <= v@.len(),
            out@ == v@.take(i as int),
        decreases v@.len() - i,
    {
        out.push(v[i]);
        proof {
            assert(out@ =~= v@.take(i + 1 as int));
        }
        i = i + 1;
    }
    proof {
        assert(out@ =~= v@);
    }
    out
}

fn clone_attrs(v: &Vec<(String, String)>) -> (r: Vec<(String, String)>)
    ensures
        r@ == v@,
{
    let mut out: Vec<(String, String)> = Vec::new();
    let mut i: usize = 0;
    while i < v.len()
        invariant
            0 <= i <= v@.len(),
            out@ == v@.take(i as int),
        decreases v@.len() - i,
    {
        let p = (v[i].0.clone(), v[i].1.clone());
        out.push(p);
        proof {
            assert(out@ =~= v@.take(i + 1 as int));
        }
        i = i + 1;
    }
    proof {
        assert(out@ =~= v@);
    }
    out
}

fn clone_product_data(p: &ProductData) -> (r: ProductData)
    ensures
        r@ == p@,
{
    ProductData { px_acc: p.px_acc, attrs: clone_attrs(&p.attrs) }
}

impl PollMachine {
    /// Feed the machine the raw bytes of the account it asked for; it
    /// decodes them as the current phase demands, applies `poll_step`, and
    /// answers with the next action.  A decode failure changes nothing.
    pub fn feed(&mut self, bytes: &[u8]) -> (r: Result<PollAction, DecodeError>)
        requires
            machine_inv(old(self)@),
            old(self)@.phase != PollPhase::Done,
        ensures
            r matches Ok(a) ==> (poll_step(old(self)@, bytes@) matches Ok(p) && final(self)@
                =~= p.0 && a == p.1 && machine_inv(final(self)@) && (final(self)@.phase
                == PollPhase::Done <==> a is Commit)),
            r matches Err(e) ==> (poll_step(old(self)@, bytes@) matches Err(e2) && e == e2
                && *final(self) == *old(self)),
    {
        let ghost pre = self@;
        proof {
            assert(forall|i: int|
                0 <= i < self.mappings.entries_view().len() ==> self.mappings.entries_view()[i].0
                    == pre.mappings[i].0);
            assert(forall|i: int|
                0 <= i < self.products.entries_view().len() ==> self.products.entries_view()[i].0
                    == pre.products[i].0);
            assert(self.mappings.entries_view().len() == pre.mappings.len());
            assert forall|i: int, j: int|
                0 <= i < j < self.mappings.entries_view().len()
                    implies self.mappings.entries_view()[i].0
                    != self.mappings.entries_view()[j].0 by {
                assert(pre.mappings[i].0 != pre.mappings[j].0);
            }
            assert(self.mappings.wf());
            assert(self.products.entries_view().len() == pre.products.len());
            assert forall|i: int, j: int|
                0 <= i < j < self.products.entries_view().len()
                    implies self.products.entries_view()[i].0
                    != self.products.entries_view()[j].0 by {
                assert(pre.products[i].0 != pre.products[j].0);
            }
            assert(self.products.wf());
            assert(self.prices.wf());
        }
        match self.phase {
            PollPhase::Mappings => {
                match decode_mapping_account(bytes) {
                    Err(e) => Err(e),
                    Ok(rec) => {
                        let ghost recv = rec@;
                        let next = rec.next;
                        let mut refs = referenced_products(&rec);
                        let ghost mpre = self.mappings.entries_view();
                        self.mappings.insert(self.cursor, rec);
                        self.queue.append(&mut refs);
                        let ghost m1 = MachineView {
                            mappings: insert_entry(pre.mappings, pre.cursor, recv),
                            queue: pre.queue + spec_referenced_products(recv),
                            ..pre
                        };
                        proof {
                            lemma_mapped_insert(
                                mpre,
                                self.mappings.entries_view(),
                                pre.cursor,
                                rec,
                            );
                            lemma_insert_entry(pre.mappings, pre.cursor, recv);
                            assert(self@ =~= m1);
                        }
                        if !key_is_sentinel(&next) {
                            self.cursor = next;
                            proof {
                                assert(self@ =~= MachineView { cursor: recv.next, ..m1 });
                            }
                            Ok(PollAction::Fetch(next))
                        } else {
                            let a = self.advance_products();
                            proof {
                                lemma_adv_products_inv(m1);
                            }
                            Ok(a)
                        }
                    },
                }
            },
            PollPhase::Products => {
                match decode_product_account(bytes) {
                    Err(e) => Err(e),
                    Ok(rec) => {
                        let ghost recv = rec@;
                        let qn = self.queue.len();
                        let k = self.queue[self.next_product];
                        self.next_product = self.next_product + 1;
                        if !key_is_sentinel(&rec.px_acc) {
                            let px = rec.px_acc;
                            self.phase = PollPhase::PriceWalk;
                            self.cursor = px;
                            self.cur_product_key = k;
                            self.cur_product = rec;
                            self.cur_price_keys = Vec::new();
                            proof {
                                assert(self@ =~= MachineView {
                                    phase: PollPhase::PriceWalk,
                                    cursor: recv.px_acc,
                                    next_product: pre.next_product + 1,
                                    cur_product_key: k,
                                    cur_product: recv,
                                    cur_price_keys: Seq::empty(),
                                    ..pre
                                });
                            }
                            Ok(PollAction::Fetch(px))
                        } else {
                            let ghost ppre = self.products.entries_view();
                            let entry = ProductAccount {
                                account_data: rec,
                                price_accounts: Vec::new(),
                            };
                            let ghost ev = entry@;
                            self.products.insert(k, entry);
                            let ghost m1 = MachineView {
                                next_product: pre.next_product + 1,
                                products: insert_entry(
                                    pre.products,
                                    k,
                                    ProductAccountView {
                                        account_data: recv,
                                        price_accounts: Seq::empty(),
                                    },
                                ),
                                ..pre
                            };
                            proof {
                                lemma_mapped_insert(
                                    ppre,
                                    self.products.entries_view(),
                                    k,
                                    entry,
                                );
                                assert(ev =~= ProductAccountView {
                                    account_data: recv,
                                    price_accounts: Seq::empty(),
                                });
                                lemma_insert_entry(pre.products, k, ev);
                                assert(self@ =~= m1);
                            }
                            let a = self.advance_products();
                            proof {
                                lemma_adv_products_inv(m1);
                            }
                            Ok(a)
                        }
                    },
                }
            },
            PollPhase::PriceWalk => {
                match decode_price_account(bytes) {
                    Err(e) => Err(e),
                    Ok(rec) => {
                        if !keys_contain(&self.cur_price_keys, &self.cursor) {
                            self.cur_price_keys.push(self.cursor);
                        }
                        let ghost keys2 = if pre.cur_price_keys.contains(pre.cursor) {
                            pre.cur_price_keys
                        } else {
                            pre.cur_price_keys.push(pre.cursor)
                        };
                        proof {
                            assert(self.cur_price_keys@ == keys2);
                            if !pre.cur_price_keys.contains(pre.cursor) {
                                assert forall|x: int, y: int| 0 <= x < y < keys2.len()
                                    implies keys2[x] != keys2[y] by {
                                    if y == keys2.len() - 1 {
                                        assert(!pre.cur_price_keys.contains(keys2[y]));
                                    }
                                }
                            }
                            assert(distinct_seq(keys2));
                        }
                        if !key_is_sentinel(&rec.next) {
                            self.cursor = rec.next;
                            proof {
                                assert(self@ =~= MachineView {
                                    cursor: rec.next,
                                    cur_price_keys: keys2,
                                    ..pre
                                });
                            }
                            Ok(PollAction::Fetch(rec.next))
                        } else {
                            let ghost ppre = self.products.entries_view();
                            let entry = ProductAccount {
                                account_data: clone_product_data(&self.cur_product),
                                price_accounts: clone_keys(&self.cur_price_keys),
                            };
                            let ghost ev = entry@;
                            let pk = self.cur_product_key;
                            self.products.insert(pk, entry);
                            let ghost m1 = MachineView {
                                products: insert_entry(
                                    pre.products,
                                    pre.cur_product_key,
                                    ProductAccountView {
                                        account_data: pre.cur_product,
                                        price_accounts: keys2,
                                    },
                                ),
                                cur_price_keys: keys2,
                                ..pre
                            };
                            proof {
                                lemma_mapped_insert(
                                    ppre,
                                    self.products.entries_view(),
                                    pk,
                                    entry,
                                );
                                assert(ev =~= ProductAccountView {
                                    account_data: pre.cur_product,
                                    price_accounts: keys2,
                                });
                                lemma_insert_entry(pre.products, pre.cur_product_key, ev);
                                assert(self@ =~= m1);
                            }
                            let a = self.advance_products();
                            proof {
                                lemma_adv_products_inv(m1);
                            }
                            Ok(a)
                        }
                    },
                }
            },
            PollPhase::PriceFetch => {
                match decode_price_account(bytes) {
                    Err(e) => Err(e),
                    Ok(rec) => {
                        let n = self.products.value_at(self.pc_i).price_accounts.len();
                        let k = self.products.value_at(self.pc_i).price_accounts[self.pc_j];
                        let ghost prpre = self.prices.entries_view();
                        self.prices.insert(k, rec);
                        self.pc_j = self.pc_j + 1;
                        let ghost m1 = MachineView {
                            prices: insert_entry(pre.prices, k, rec),
                            pc_j: pre.pc_j + 1,
                            ..pre
                        };
                        proof {
                            lemma_find_idx(prpre, k);
                            assert(self.prices.entries_view() =~= insert_entry(pre.prices, k, rec));
                            lemma_insert_entry(pre.prices, k, rec);
                            assert(self@ =~= m1);
                            assert(k == pre.products[pre.pc_i].1.price_accounts[pre.pc_j]);
                            assert forall|x: AccountKey|
                                has_key(m1.prices, x) <==> processed_price_key(m1, x) by {
                                if has_key(m1.prices, x) {
                                    if has_key(pre.prices, x) {
                                        assert(processed_price_key(pre, x));
                                        let (i, j) = choose|i: int, j: int|
                                            0 <= i < pre.products.len() && 0 <= j
                                                < pre.products[i].1.price_accounts.len() && (i
                                                < pre.pc_i || (i == pre.pc_i && j < pre.pc_j))
                                                && pre.products[i].1.price_accounts[j] == x;
                                        assert(m1.products[i].1.price_accounts[j] == x);
                                        assert(i < m1.pc_i || (i == m1.pc_i && j < m1.pc_j));
                                        assert(processed_price_key(m1, x));
                                    } else {
                                        assert(x == k);
                                        assert(m1.products[pre.pc_i].1.price_accounts[pre.pc_j]
                                            == x);
                                        assert(processed_price_key(m1, x));
                                    }
                                }
                                if processed_price_key(m1, x) {
                                    let (i, j) = choose|i: int, j: int|
                                        0 <= i < m1.products.len() && 0 <= j
                                            < m1.products[i].1.price_accounts.len() && (i
                                            < m1.pc_i || (i == m1.pc_i && j < m1.pc_j))
                                            && m1.products[i].1.price_accounts[j] == x;
                                    if i < pre.pc_i || (i == pre.pc_i && j < pre.pc_j) {
                                        assert(pre.products[i].1.price_accounts[j] == x);
                                        assert(processed_price_key(pre, x));
                                        assert(has_key(pre.prices, x));
                                    } else {
                                        assert(i == pre.pc_i && j == pre.pc_j);
                                        assert(x == k);
                                    }
                                    assert(has_key(m1.prices, x));
                                }
                            }
                            lemma_adv_prices_inv(m1);
                        }
                        let a = self.advance_prices();
                        Ok(a)
                    },
                }
            },
            PollPhase::Done => {
                proof {
                    assert(false);
                }
                Err(DecodeError::InvalidAccountData)
            },
        }
    }
}


/// A one-way message to the downstream consistency store.
#[derive(Debug)]
pub enum Update {
    ProductAccountUpdate { account_key: AccountKey, account: ProductAccount },
    PriceAccountUpdate { account_key: AccountKey, account: PriceAccount },
}

/// The synchronizer's decision core: it owns the authoritative snapshot;
/// the caller performs the remote reads and channel sends it asks for.
pub struct Oracle {
    pub data: Data,
}

impl Oracle {
    pub fn new() -> (r: Oracle)
        ensures
            r.data.wf(),
            r.data@.mappings.len() == 0,
            r.data@.products.len() == 0,
            r.data@.prices.len() == 0,
    {
        Oracle { data: Data::new() }
    }

    /// Apply one push notification.  The update is applied (entry
    /// replaced, one forwarding message returned) if and only if the key
    /// already stands in the price-account map; a push naming an unknown
    /// key changes nothing and forwards nothing, and a decode failure
    /// likewise leaves the snapshot as it was.
    pub fn handle_account_update(&mut self, account_key: &AccountKey, bytes: &[u8]) -> (r: Result<
        Option<Update>,
        DecodeError,
    >)
        requires
            old(self).data.wf(),
        ensures
            final(self).data.wf(),
            final(self).data@.mappings == old(self).data@.mappings,
            final(self).data@.products == old(self).data@.products,
            !has_key(old(self).data@.prices, *account_key) ==> (r matches Ok(o) && o is None
                && final(self).data@.prices == old(self).data@.prices),
            has_key(old(self).data@.prices, *account_key) ==> match price_decode_of(bytes@) {
                Ok(rec) => r matches Ok(o) && (o matches Some(u) && (u
                    matches Update::PriceAccountUpdate { account_key: k2, account: a2 } && k2
                    == *account_key && a2 == rec)) && final(self).data@.prices =~= insert_entry(
                    old(self).data@.prices,
                    *account_key,
                    rec,
                ),
                Err(e) => r matches Err(e2) && e2 == e && final(self).data@.prices == old(
                    self,
                ).data@.prices,
            },
    {
        if !self.data.price_accounts.contains_key(account_key) {
            return Ok(None);
        }
        match decode_price_account(bytes) {
            Err(e) => Err(e),
            Ok(rec) => {
                let ghost prpre = self.data.price_accounts.entries_view();
                proof {
                    lemma_find_idx(prpre, *account_key);
                }
                self.data.price_accounts.insert(*account_key, rec);
                proof {
                    assert(self.data.price_accounts.entries_view() =~= insert_entry(
                        prpre,
                        *account_key,
                        rec,
                    ));
                }
                Ok(
                    Some(
                        Update::PriceAccountUpdate { account_key: *account_key, account: rec },
                    ),
                )
            },
        }
    }

    /// One message per account in the snapshot, every product then every
    /// price, unconditionally: the number of messages equals the total
    /// size of the product and price maps, and each message carries the
    /// entry it names.
    pub fn send_all_data_to_global_store(&self) -> (updates: Vec<Update>)
        ensures
            updates@.len() == self.data@.products.len() + self.data@.prices.len(),
            forall|i: int|
                0 <= i < self.data@.products.len() ==> ((#[trigger] updates@[i])
                    matches Update::ProductAccountUpdate { account_key, account } && account_key
                    == self.data@.products[i].0 && account@ == self.data@.products[i].1),
            forall|i: int|
                0 <= i < self.data@.prices.len() ==> ((#[trigger] updates@[self.data@.products.len() + i])
                    matches Update::PriceAccountUpdate { account_key, account } && account_key
                    == self.data@.prices[i].0 && account == self.data@.prices[i].1),
    {
        let mut updates: Vec<Update> = Vec::new();
        let n = self.data.product_accounts.len();
        let mut i: usize = 0;
        while i < n
            invariant
                0 <= i <= n,
                n == self.data@.products.len(),
                updates@.len() == i,
                forall|j: int|
                    0 <= j < i ==> ((#[trigger] updates@[j])
                        matches Update::ProductAccountUpdate { account_key, account }
                        && account_key == self.data@.products[j].0 && account@
                        == self.data@.products[j].1),
            decreases n - i,
        {
            let keyi = self.data.product_accounts.key_at(i);
            let vi = self.data.product_accounts.value_at(i);
            let entry = ProductAccount {
                account_data: clone_product_data(&vi.account_data),
                price_accounts: clone_keys(&vi.price_accounts),
            };
            proof {
                assert(entry@ =~= self.data@.products[i as int].1);
            }
            updates.push(Update::ProductAccountUpdate { account_key: keyi, account: entry });
            i = i + 1;
        }
        let np = self.data.price_accounts.len();
        let mut j: usize = 0;
        while j < np
            invariant
                0 <= j <= np,
                n == self.data@.products.len(),
                np == self.data@.prices.len(),
                updates@.len() == n + j,
                forall|x: int|
                    0 <= x < n ==> ((#[trigger] updates@[x])
                        matches Update::ProductAccountUpdate { account_key, account }
                        && account_key == self.data@.products[x].0 && account@
                        == self.data@.products[x].1),
                forall|x: int|
                    0 <= x < j ==> ((#[trigger] updates@[n + x])
                        matches Update::PriceAccountUpdate { account_key, account }
                        && account_key == self.data@.prices[x].0 && account
                        == self.data@.prices[x].1),
            decreases np - j,
        {
            let keyj = self.data.price_accounts.key_at(j);
            let vj = *self.data.price_accounts.value_at(j);
            updates.push(Update::PriceAccountUpdate { account_key: keyj, account: vj });
            j = j + 1;
        }
        updates
    }

    /// Replace the snapshot with a completed rebuild and return the full
    /// fan-out of forwarding messages.
    pub fn commit_poll(&mut self, machine: PollMachine) -> (updates: Vec<Update>)
        requires
            machine_inv(machine@),
            machine@.phase == PollPhase::Done,
        ensures
            final(self).data.wf(),
            final(self).data@.mappings == machine@.mappings,
            final(self).data@.products == machine@.products,
            final(self).data@.prices == machine@.prices,
            forall|k: AccountKey|
                has_key(final(self).data@.prices, k) <==> reachable_price_key(
                    final(self).data@.products,
                    k,
                ),
            forall|i: int|
                0 <= i < machine@.products.len() ==> distinct_seq(
                    #[trigger] machine@.products[i].1.price_accounts,
                ),
            updates@.len() == machine@.products.len() + machine@.prices.len(),
            forall|i: int|
                0 <= i < machine@.products.len() ==> ((#[trigger] updates@[i])
                    matches Update::ProductAccountUpdate { account_key, account } && account_key
                    == machine@.products[i].0 && account@ == machine@.products[i].1),
            forall|i: int|
                0 <= i < machine@.prices.len() ==> ((#[trigger] updates@[machine@.products.len() + i])
                    matches Update::PriceAccountUpdate { account_key, account } && account_key
                    == machine@.prices[i].0 && account == machine@.prices[i].1),
    {
        self.data = machine.into_data();
        self.send_all_data_to_global_store()
    }
}


/// The machine a mapping-chain walk reaches after feeding the records
/// `rs` one at a time.
pub open spec fn run_mapping_walk(m: MachineView, rs: Seq<MappingView>) -> MachineView
    decreases rs.len(),
{
    if rs.len() == 0 {
        m
    } else {
        run_mapping_walk(step_mapping(m, rs[0]).0, rs.skip(1))
    }
}

/// The keys such a walk reads: the root first, then each fed node's
/// `next` in turn.
pub open spec fn walk_keys(root: AccountKey, rs: Seq<MappingView>) -> Seq<AccountKey> {
    Seq::new(rs.len(), |i: int| if i == 0 { root } else { rs[i - 1].next })
}

proof fn lemma_adv_prices_keeps(m: MachineView)
    ensures
        adv_prices(m).0.mappings == m.mappings,
        adv_prices(m).0.phase == m.phase || adv_prices(m).0.phase == PollPhase::Done,
    decreases m.products.len() - m.pc_i,
{
    if m.pc_i < 0 || m.pc_i >= m.products.len() {
    } else if m.pc_j < 0 || m.pc_j >= m.products[m.pc_i].1.price_accounts.len() {
        lemma_adv_prices_keeps(MachineView { pc_i: m.pc_i + 1, pc_j: 0, ..m });
    }
}

proof fn lemma_adv_products_keeps(m: MachineView)
    ensures
        adv_products(m).0.mappings == m.mappings,
        adv_products(m).0.phase != PollPhase::Mappings,
{
    if m.next_product < m.queue.len() {
    } else {
        lemma_adv_prices_keeps(MachineView { phase: PollPhase::PriceFetch, pc_i: 0, pc_j: 0, ..m });
    }
}

/// Mapping-chain traversal terminates after exactly N fetches when node
/// N's `next` equals the sentinel, for every chain length N >= 0 (the
/// zero-length case is `poll_start` on a sentinel root, which performs no
/// fetch at all): while every fed node names a non-sentinel successor the
/// machine stays in the mapping phase with the successor as its next
/// fetch, and feeding the node whose `next` is the sentinel leaves the
/// phase.  The walk visits the root and then each node's `next`; under
/// the stated acyclicity assumption on remote data these keys are
/// pairwise distinct, so no key is revisited, and the mapping map gains
/// exactly one entry per fetched key, in fetch order.
pub proof fn lemma_mapping_walk_terminates(m: MachineView, rs: Seq<MappingView>)
    requires
        m.phase == PollPhase::Mappings,
        forall|i: int| 0 <= i < rs.len() - 1 ==> !is_sentinel(rs[i].next),
        rs.len() > 0 ==> is_sentinel(rs[rs.len() - 1].next),
        forall|i: int, j: int|
            0 <= i < j < rs.len() ==> walk_keys(m.cursor, rs)[i] != walk_keys(m.cursor, rs)[j],
        forall|i: int|
            0 <= i < rs.len() ==> !has_key(m.mappings, #[trigger] walk_keys(m.cursor, rs)[i]),
    ensures
        rs.len() > 0 ==> run_mapping_walk(m, rs).phase != PollPhase::Mappings,
        forall|p: int|
            0 <= p < rs.len() ==> #[trigger] run_mapping_walk(m, rs.take(p)).phase
                == PollPhase::Mappings && run_mapping_walk(m, rs.take(p)).cursor == walk_keys(
                m.cursor,
                rs,
            )[p],
        run_mapping_walk(m, rs).mappings =~= m.mappings + Seq::new(
            rs.len(),
            |i: int| (walk_keys(m.cursor, rs)[i], rs[i]),
        ),
    decreases rs.len(),
{
    if rs.len() == 0 {
        assert(run_mapping_walk(m, rs).mappings =~= m.mappings + Seq::new(
            rs.len(),
            |i: int| (walk_keys(m.cursor, rs)[i], rs[i]),
        ));
    } else {
        let m1 = step_mapping(m, rs[0]).0;
        assert(walk_keys(m.cursor, rs)[0] == m.cursor);
        assert(!has_key(m.mappings, m.cursor));
        if is_sentinel(rs[0].next) {
            assert(rs.len() == 1) by {
                if rs.len() > 1 {
                    assert(!is_sentinel(rs[0].next));
                }
            }
            lemma_adv_products_keeps(MachineView {
                mappings: insert_entry(m.mappings, m.cursor, rs[0]),
                queue: m.queue + spec_referenced_products(rs[0]),
                ..m
            });
            assert(run_mapping_walk(m, rs) == run_mapping_walk(m1, rs.skip(1)));
            assert(rs.skip(1).len() == 0);
            assert(run_mapping_walk(m, rs).mappings =~= m.mappings + Seq::new(
                rs.len(),
                |i: int| (walk_keys(m.cursor, rs)[i], rs[i]),
            ));
            assert forall|p: int| 0 <= p < rs.len() implies #[trigger] run_mapping_walk(
                m,
                rs.take(p),
            ).phase == PollPhase::Mappings && run_mapping_walk(m, rs.take(p)).cursor == walk_keys(
                m.cursor,
                rs,
            )[p] by {
                assert(rs.take(0) =~= Seq::<MappingView>::empty());
                assert(run_mapping_walk(m, rs.take(0)) == m);
            }
        } else {
            assert(m1.mappings =~= m.mappings.push((m.cursor, rs[0])));
            assert(m1.phase == PollPhase::Mappings);
            assert(m1.cursor == rs[0].next);
            let rs1 = rs.skip(1);
            let wk = walk_keys(m.cursor, rs);
            let wk1 = walk_keys(m1.cursor, rs1);
            assert(wk1.len() == rs1.len());
            assert(forall|i: int| 0 <= i < rs1.len() ==> wk1[i] == wk[i + 1]);
            assert(forall|i: int| 0 <= i < rs1.len() - 1 ==> !is_sentinel(rs1[i].next));
            assert(rs1.len() > 0 ==> is_sentinel(rs1[rs1.len() - 1].next));
            assert forall|i: int, j: int| 0 <= i < j < rs1.len() implies wk1[i] != wk1[j] by {
                assert(wk[i + 1] != wk[j + 1]);
            }
            assert forall|i: int| 0 <= i < rs1.len() implies !has_key(
                m1.mappings,
                #[trigger] wk1[i],
            ) by {
                assert(wk1[i] == wk[i + 1]);
                assert(wk[i + 1] != wk[0]);
                if has_key(m1.mappings, wk1[i]) {
                    let w = choose|w: int|
                        0 <= w < m1.mappings.len() && m1.mappings[w].0 == wk1[i];
                    if w < m.mappings.len() {
                        assert(has_key(m.mappings, wk1[i]));
                    }
                }
            }
            lemma_mapping_walk_terminates(m1, rs1);
            assert(run_mapping_walk(m, rs) == run_mapping_walk(m1, rs1));
            assert(run_mapping_walk(m, rs).mappings =~= m.mappings + Seq::new(
                rs.len(),
                |i: int| (wk[i], rs[i]),
            )) by {
                assert(run_mapping_walk(m1, rs1).mappings =~= m1.mappings + Seq::new(
                    rs1.len(),
                    |i: int| (wk1[i], rs1[i]),
                ));
            }
            assert forall|p: int| 0 <= p < rs.len() implies #[trigger] run_mapping_walk(
                m,
                rs.take(p),
            ).phase == PollPhase::Mappings && run_mapping_walk(m, rs.take(p)).cursor == wk[p] by {
                if p == 0 {
                    assert(rs.take(0) =~= Seq::<MappingView>::empty());
                    assert(run_mapping_walk(m, rs.take(0)) == m);
                } else {
                    assert(run_mapping_walk(m1, rs1.take(p - 1)).phase == PollPhase::Mappings
                        && run_mapping_walk(m1, rs1.take(p - 1)).cursor == wk1[p - 1]);
                    assert(rs.take(p).len() > 0);
                    assert(rs.take(p)[0] == rs[0]);
                    assert(rs.take(p).skip(1) =~= rs1.take(p - 1));
                    assert(step_mapping(m, rs.take(p)[0]).0 == m1);
                    assert(run_mapping_walk(m, rs.take(p)) == run_mapping_walk(
                        m1,
                        rs1.take(p - 1),
                    ));
                }
            }
        }
    }
}

} // verus!
