use vstd::prelude::*;
use vstd::string::StringExecFns;
use crate::accounts::{PriceAccount, ProductAccount, ProductAccountView};
use crate::assoc::{find_idx, has_key, lemma_find_idx, lemma_find_idx_same_keys, mapped_entries, value_of, KeyedStore};
use crate::fmt::{base58_spec, chars_of, format_price, key_base58, price_string, timestamp_cell, timestamp_cell_spec};
use crate::keys::{key_eq, key_lt, key_lt_exec, keys_contain, lemma_key_order, AccountKey};

verus! {

/// A local, not-yet-confirmed price record from the pending store.
#[derive(Clone, Copy, Debug)]
pub struct PriceInfo {
    pub price: i64,
    pub conf: u64,
    pub timestamp: i64,
}

/// Metadata the consistency store keeps per price account.
#[derive(Clone, Copy, Debug)]
pub struct PriceAccountMetadata {
    pub expo: i64,
}

/// Metadata the consistency store keeps per product account: the
/// attribute dictionary and the price keys associated with the product.
pub struct ProductAccountMetadata {
    pub attr_dict: Vec<(String, String)>,
    pub price_accounts: Vec<AccountKey>,
}

#[verifier::ext_equal]
pub ghost struct ProductMetadataView {
    pub attr_dict: Seq<(Seq<char>, Seq<char>)>,
    pub price_accounts: Seq<AccountKey>,
}

impl View for ProductAccountMetadata {
    type V = ProductMetadataView;

    open spec fn view(&self) -> ProductMetadataView {
        ProductMetadataView {
            attr_dict: self.attr_dict@.map_values(|p: (String, String)| (p.0@, p.1@)),
            price_accounts: self.price_accounts@,
        }
    }
}

/// The confirmed-state snapshot of the consistency store.
pub struct AllAccountsData {
    pub product_accounts: KeyedStore<ProductAccount>,
    pub price_accounts: KeyedStore<PriceAccount>,
}

/// The metadata snapshot of the consistency store.
pub struct AllAccountsMetadata {
    pub product_accounts_metadata: KeyedStore<ProductAccountMetadata>,
    pub price_accounts_metadata: KeyedStore<PriceAccountMetadata>,
}

/// One price row of the dashboard: each source's record if that source
/// has one.
#[derive(Clone, Copy, Debug)]
pub struct DashboardPriceView {
    pub local_data: Option<PriceInfo>,
    pub global_data: Option<PriceAccount>,
    pub global_metadata: Option<PriceAccountMetadata>,
}

/// One product's aggregate: its key and its price rows in sorted key
/// order.
pub struct DashboardSymbolView {
    pub product: AccountKey,
    pub prices: Vec<(AccountKey, DashboardPriceView)>,
}

#[verifier::ext_equal]
pub ghost struct SymbolViewV {
    pub product: AccountKey,
    pub prices: Seq<(AccountKey, DashboardPriceView)>,
}

impl View for DashboardSymbolView {
    type V = SymbolViewV;

    open spec fn view(&self) -> SymbolViewV {
        SymbolViewV { product: self.product, prices: self.prices@ }
    }
}

/// The report: display names to symbol views, at most one entry per name,
/// in insertion order.
pub struct Report {
    entries: Vec<(String, DashboardSymbolView)>,
}

impl View for Report {
    type V = Seq<(Seq<char>, SymbolViewV)>;

    closed spec fn view(&self) -> Seq<(Seq<char>, SymbolViewV)> {
        self.entries@.map_values(|e: (String, DashboardSymbolView)| (e.0@, e.1@))
    }
}

impl Report {
    pub fn new() -> (r: Report)
        ensures
            r@ == Seq::<(Seq<char>, SymbolViewV)>::empty(),
    {
        let r = Report { entries: Vec::new() };
        proof {
            assert(r@ =~= Seq::<(Seq<char>, SymbolViewV)>::empty());
        }
        r
    }

    pub fn len(&self) -> (n: usize)
        ensures
            n == self@.len(),
    {
        self.entries.len()
    }

    pub fn name_at(&self, i: usize) -> (r: &String)
        requires
            i < self@.len(),
        ensures
            r@ == self@[i as int].0,
    {
        &self.entries[i].0
    }

    pub fn view_at(&self, i: usize) -> (r: &DashboardSymbolView)
        requires
            i < self@.len(),
        ensures
            r@ == self@[i as int].1,
    {
        &self.entries[i].1
    }

    pub fn contains_name(&self, name: &String) -> (r: bool)
        ensures
            r == has_key(self@, name@),
    {
        let mut i: usize = 0;
        while i < self.entries.len()
            invariant
                0 <= i <= self@.len(),
                self@.len() == self.entries@.len(),
                forall|j: int| 0 <= j < i ==> self@[j].0 != name@,
            decreases self@.len() - i,
        {
            if self.entries[i].0 == *name {
                assert(self@[i as int].0 == name@);
                return true;
            }
            i = i + 1;
        }
        false
    }

    pub fn get(&self, name: &String) -> (r: Option<&DashboardSymbolView>)
        ensures
            has_key(self@, name@) ==> (r matches Some(v) && v@ == value_of(self@, name@)),
            !has_key(self@, name@) ==> r is None,
    {
        proof {
            lemma_find_idx(self@, name@);
        }
        let mut i: usize = 0;
        while i < self.entries.len()
            invariant
                0 <= i <= self@.len(),
                self@.len() == self.entries@.len(),
                forall|j: int| 0 <= j < i ==> self@[j].0 != name@,
            decreases self@.len() - i,
        {
            if self.entries[i].0 == *name {
                proof {
                    lemma_find_idx(self@, name@);
                    crate::assoc::lemma_find_prefix_known(self@, name@, i as int);
                }
                return Some(&self.entries[i].1);
            }
            i = i + 1;
        }
        None
    }

    /// The position the name belongs at in ascending name order.
    fn insert_pos(&self, nm: &Vec<char>) -> (r: usize)
        ensures
            0 <= r <= self@.len(),
            forall|j: int| 0 <= j < r ==> chars_lt(#[trigger] self@[j].0, nm@),
            r < self@.len() ==> !chars_lt(self@[r as int].0, nm@),
    {
        let mut i: usize = 0;
        while i < self.entries.len()
            invariant
                0 <= i <= self@.len(),
                self@.len() == self.entries@.len(),
                forall|j: int| 0 <= j < i ==> chars_lt(#[trigger] self@[j].0, nm@),
            decreases self@.len() - i,
        {
            let ec = chars_of(self.entries[i].0.as_str());
            proof {
                assert(ec@ == self@[i as int].0);
            }
            if !chars_vec_lt(&ec, nm) {
                return i;
            }
            i = i + 1;
        }
        i
    }

    /// Place the view under this name in ascending name order, replacing
    /// the entry already there.
    pub fn insert(&mut self, name: String, v: DashboardSymbolView)
        ensures
            final(self)@ =~= report_insert(old(self)@, name@, v@),
    {
        let ghost orig = self@;
        let nm = chars_of(name.as_str());
        let pos = self.insert_pos(&nm);
        proof {
            lemma_report_insert_at(orig, name@, v@, pos as int);
        }
        if pos < self.entries.len() && self.entries[pos].0 == name {
            proof {
                assert(orig[pos as int].0 == name@);
            }
            self.entries.set(pos, (name, v));
            proof {
                assert(self@ =~= orig.take(pos as int) + seq![(name@, v@)] + orig.skip(
                    pos + 1 as int,
                ));
            }
        } else {
            proof {
                assert(!(pos < orig.len() && orig[pos as int].0 == name@));
            }
            self.entries.insert(pos, (name, v));
            proof {
                assert(self@ =~= orig.take(pos as int) + seq![(name@, v@)] + orig.skip(
                    pos as int,
                ));
            }
        }
    }
}

/// Lexicographic order on character sequences by code point; a proper
/// prefix comes first.  Rust orders strings the same way, as UTF-8 byte
/// order coincides with code-point order.
pub open spec fn chars_lt(a: Seq<char>, b: Seq<char>) -> bool
    decreases a.len(),
{
    if b.len() == 0 {
        false
    } else if a.len() == 0 {
        true
    } else if (a[0] as u32) < (b[0] as u32) {
        true
    } else if (a[0] as u32) > (b[0] as u32) {
        false
    } else {
        chars_lt(a.skip(1), b.skip(1))
    }
}

/// The order `chars_lt` is asymmetric and total: of two distinct
/// sequences one is below the other, and never both.
pub proof fn lemma_chars_order(a: Seq<char>, b: Seq<char>)
    ensures
        !chars_lt(a, b) && !chars_lt(b, a) ==> a =~= b,
        chars_lt(a, b) ==> !chars_lt(b, a),
    decreases a.len() + b.len(),
{
    if chars_lt(a, b) && chars_lt(b, a) {
        if a.len() > 0 && b.len() > 0 && (a[0] as u32) == (b[0] as u32) {
            lemma_chars_order(a.skip(1), b.skip(1));
        }
        assert(false);
    }
    if !chars_lt(a, b) && !chars_lt(b, a) {
        if b.len() == 0 {
            assert(a.len() == 0);
            assert(a =~= b);
        } else if a.len() == 0 {
            assert(chars_lt(a, b));
        } else if (a[0] as u32) == (b[0] as u32) {
            lemma_chars_order(a.skip(1), b.skip(1));
            assert(a.skip(1) =~= b.skip(1));
            vstd::utf8::char_u32_cast(a[0], a[0] as u32);
            vstd::utf8::char_u32_cast(b[0], a[0] as u32);
            assert(a[0] == b[0]);
            assert(a =~= seq![a[0]] + a.skip(1));
            assert(b =~= seq![b[0]] + b.skip(1));
            assert(a =~= b);
        } else {
            assert(false);
        }
    }
}

/// `chars_lt` is transitive.
pub proof fn lemma_chars_trans(a: Seq<char>, b: Seq<char>, c: Seq<char>)
    requires
        chars_lt(a, b),
        chars_lt(b, c),
    ensures
        chars_lt(a, c),
    decreases a.len() + b.len() + c.len(),
{
    if a.len() > 0 && b.len() > 0 && c.len() > 0 {
        if (a[0] as u32) == (b[0] as u32) && (b[0] as u32) == (c[0] as u32) {
            lemma_chars_trans(a.skip(1), b.skip(1), c.skip(1));
        }
    }
}

fn chars_vec_lt(a: &Vec<char>, b: &Vec<char>) -> (r: bool)
    ensures
        r == chars_lt(a@, b@),
{
    proof {
        assert(a@.skip(0) =~= a@);
        assert(b@.skip(0) =~= b@);
    }
    let mut i: usize = 0;
    while i < a.len() && i < b.len()
        invariant
            0 <= i <= a@.len(),
            0 <= i <= b@.len(),
            chars_lt(a@, b@) == chars_lt(a@.skip(i as int), b@.skip(i as int)),
        decreases a@.len() - i,
    {
        let ca = a[i];
        let cb = b[i];
        if (ca as u32) < (cb as u32) {
            return true;
        }
        if (ca as u32) > (cb as u32) {
            return false;
        }
        proof {
            let sa = a@.skip(i as int);
            let sb = b@.skip(i as int);
            assert(sa[0] == a@[i as int]);
            assert(sb[0] == b@[i as int]);
            assert(sa.skip(1) =~= a@.skip(i + 1 as int));
            assert(sb.skip(1) =~= b@.skip(i + 1 as int));
        }
        i = i + 1;
    }
    proof {
        assert(a@.skip(i as int).len() == 0 || b@.skip(i as int).len() == 0);
    }
    i < b.len()
}

/// Ascending strict name order over report entries.
pub open spec fn sorted_names(s: Seq<(Seq<char>, SymbolViewV)>) -> bool {
    forall|i: int, j: int| 0 <= i < j < s.len() ==> chars_lt(s[i].0, s[j].0)
}

/// Inserting into a name-sorted report: the entry goes to its ordered
/// position, replacing an entry already under that name.
pub open spec fn report_insert(
    s: Seq<(Seq<char>, SymbolViewV)>,
    name: Seq<char>,
    v: SymbolViewV,
) -> Seq<(Seq<char>, SymbolViewV)>
    decreases s.len(),
{
    if s.len() == 0 {
        seq![(name, v)]
    } else if chars_lt(name, s[0].0) {
        seq![(name, v)] + s
    } else if s[0].0 == name {
        seq![(name, v)] + s.skip(1)
    } else {
        seq![s[0]] + report_insert(s.skip(1), name, v)
    }
}

/// Every entry of the insertion result carries the new name or one of the
/// old names.
proof fn lemma_report_insert_names(
    s: Seq<(Seq<char>, SymbolViewV)>,
    name: Seq<char>,
    v: SymbolViewV,
)
    ensures
        forall|i: int|
            0 <= i < report_insert(s, name, v).len() ==> (#[trigger] report_insert(
                s,
                name,
                v,
            )[i].0 == name || exists|k: int|
                0 <= k < s.len() && report_insert(s, name, v)[i].0 == s[k].0),
    decreases s.len(),
{
    let r = report_insert(s, name, v);
    if s.len() == 0 {
    } else if chars_lt(name, s[0].0) {
        assert forall|i: int| 0 <= i < r.len() implies (r[i].0 == name || exists|k: int|
            0 <= k < s.len() && r[i].0 == s[k].0) by {
            if i > 0 {
                assert(r[i].0 == s[i - 1].0);
            }
        }
    } else if s[0].0 == name {
        assert forall|i: int| 0 <= i < r.len() implies (r[i].0 == name || exists|k: int|
            0 <= k < s.len() && r[i].0 == s[k].0) by {
            if i > 0 {
                assert(r[i].0 == s[i].0);
            }
        }
    } else {
        lemma_report_insert_names(s.skip(1), name, v);
        assert forall|i: int| 0 <= i < r.len() implies (r[i].0 == name || exists|k: int|
            0 <= k < s.len() && r[i].0 == s[k].0) by {
            if i == 0 {
                assert(r[0].0 == s[0].0);
            } else {
                let ri = report_insert(s.skip(1), name, v)[i - 1];
                assert(r[i] == ri);
                if ri.0 != name {
                    let k = choose|k: int| 0 <= k < s.skip(1).len() && ri.0 == s.skip(1)[k].0;
                    assert(s.skip(1)[k].0 == s[k + 1].0);
                }
            }
        }
    }
}

/// Insertion keeps the report name-sorted.
pub proof fn lemma_report_insert_sorted(
    s: Seq<(Seq<char>, SymbolViewV)>,
    name: Seq<char>,
    v: SymbolViewV,
)
    requires
        sorted_names(s),
    ensures
        sorted_names(report_insert(s, name, v)),
    decreases s.len(),
{
    let r = report_insert(s, name, v);
    if s.len() == 0 {
    } else if chars_lt(name, s[0].0) {
        assert forall|i: int, j: int| 0 <= i < j < r.len() implies chars_lt(r[i].0, r[j].0) by {
            if i == 0 {
                if j > 1 {
                    lemma_chars_trans(name, s[0].0, s[j - 1].0);
                }
            } else {
                assert(r[i].0 == s[i - 1].0 && r[j].0 == s[j - 1].0);
            }
        }
    } else if s[0].0 == name {
        assert forall|i: int, j: int| 0 <= i < j < r.len() implies chars_lt(r[i].0, r[j].0) by {
            if i == 0 {
                assert(r[j].0 == s[j].0);
                assert(chars_lt(s[0].0, s[j].0));
            } else {
                assert(r[i].0 == s[i].0 && r[j].0 == s[j].0);
            }
        }
    } else {
        lemma_chars_order(name, s[0].0);
        assert(chars_lt(s[0].0, name));
        lemma_report_insert_sorted(s.skip(1), name, v);
        lemma_report_insert_names(s.skip(1), name, v);
        assert forall|i: int, j: int| 0 <= i < j < r.len() implies chars_lt(r[i].0, r[j].0) by {
            if i == 0 {
                let rj = report_insert(s.skip(1), name, v)[j - 1];
                assert(r[j] == rj);
                if rj.0 == name {
                    assert(chars_lt(s[0].0, name));
                } else {
                    let k = choose|k: int| 0 <= k < s.skip(1).len() && rj.0 == s.skip(1)[k].0;
                    assert(s.skip(1)[k].0 == s[k + 1].0);
                    assert(chars_lt(s[0].0, s[k + 1].0));
                }
            } else {
                assert(r[i] == report_insert(s.skip(1), name, v)[i - 1]);
                assert(r[j] == report_insert(s.skip(1), name, v)[j - 1]);
            }
        }
    }
}

/// The ordered position of the insertion, located by the prefix of names
/// below the new one.
proof fn lemma_report_insert_at(
    s: Seq<(Seq<char>, SymbolViewV)>,
    name: Seq<char>,
    v: SymbolViewV,
    pos: int,
)
    requires
        0 <= pos <= s.len(),
        forall|j: int| 0 <= j < pos ==> chars_lt(#[trigger] s[j].0, name),
        pos < s.len() ==> !chars_lt(s[pos].0, name),
    ensures
        pos < s.len() && s[pos].0 == name ==> report_insert(s, name, v) =~= s.take(pos) + seq![
            (name, v),
        ] + s.skip(pos + 1),
        !(pos < s.len() && s[pos].0 == name) ==> report_insert(s, name, v) =~= s.take(pos)
            + seq![(name, v)] + s.skip(pos),
    decreases pos,
{
    if pos == 0 {
        if s.len() == 0 {
            assert(report_insert(s, name, v) =~= s.take(0) + seq![(name, v)] + s.skip(0));
        } else if s[0].0 == name {
            lemma_chars_order(name, s[0].0);
            assert(!chars_lt(name, s[0].0));
            assert(report_insert(s, name, v) =~= s.take(0) + seq![(name, v)] + s.skip(1));
        } else {
            lemma_chars_order(name, s[0].0);
            assert(chars_lt(name, s[0].0));
            assert(report_insert(s, name, v) =~= s.take(0) + seq![(name, v)] + s.skip(0));
        }
    } else {
        assert(chars_lt(s[0].0, name));
        lemma_chars_order(s[0].0, name);
        assert(!chars_lt(name, s[0].0));
        assert(s[0].0 != name) by {
            if s[0].0 == name {
                lemma_chars_order(name, name);
            }
        }
        assert(forall|j: int| 0 <= j < pos - 1 ==> chars_lt(#[trigger] s.skip(1)[j].0, name));
        assert(pos - 1 < s.skip(1).len() ==> !chars_lt(s.skip(1)[pos - 1].0, name)) by {
            if pos - 1 < s.skip(1).len() {
                assert(s.skip(1)[pos - 1] == s[pos]);
            }
        }
        lemma_report_insert_at(s.skip(1), name, v, pos - 1);
        if pos < s.len() && s[pos].0 == name {
            assert(s.skip(1)[pos - 1] == s[pos]);
            assert(seq![s[0]] + (s.skip(1).take(pos - 1) + seq![(name, v)] + s.skip(1).skip(pos))
                =~= s.take(pos) + seq![(name, v)] + s.skip(pos + 1));
        } else {
            if pos - 1 < s.skip(1).len() {
                assert(s.skip(1)[pos - 1] == s[pos]);
            }
            assert(seq![s[0]] + (s.skip(1).take(pos - 1) + seq![(name, v)] + s.skip(1).skip(
                pos - 1,
            )) =~= s.take(pos) + seq![(name, v)] + s.skip(pos));
        }
    }
}


/// Warnings the builder reports instead of logging: symbols renamed on a
/// name collision, and keys never matched to any product.
pub struct DashboardWarnings {
    pub renamed_symbols: Vec<String>,
    pub orphaned_price_keys: Vec<AccountKey>,
    pub orphaned_product_keys: Vec<AccountKey>,
}

/// First value in an attribute dictionary under a name.
pub open spec fn attr_lookup(attrs: Seq<(Seq<char>, Seq<char>)>, name: Seq<char>) -> Option<
    Seq<char>,
>
    decreases attrs.len(),
{
    if attrs.len() == 0 {
        None
    } else if attrs[0].0 == name {
        Some(attrs[0].1)
    } else {
        attr_lookup(attrs.skip(1), name)
    }
}

/// The display name of a product: its "symbol" attribute, or a fallback
/// embedding the product key in its base-58 text.
pub open spec fn symbol_name_spec(pk: AccountKey, pm: ProductMetadataView) -> Seq<char> {
    match attr_lookup(pm.attr_dict, "symbol"@) {
        Some(s) => s,
        None => "unnamed product "@ + base58_spec(pk@),
    }
}

fn attr_lookup_exec(attrs: &Vec<(String, String)>, name: &String) -> (r: Option<String>)
    ensures
        r matches Some(s) ==> (attr_lookup(
            attrs@.map_values(|p: (String, String)| (p.0@, p.1@)),
            name@,
        ) matches Some(v) && v == s@),
        r is None ==> attr_lookup(
            attrs@.map_values(|p: (String, String)| (p.0@, p.1@)),
            name@,
        ) is None,
{
    let ghost m = attrs@.map_values(|p: (String, String)| (p.0@, p.1@));
    proof {
        assert(m.skip(0) =~= m);
    }
    let mut i: usize = 0;
    while i < attrs.len()
        invariant
            0 <= i <= m.len(),
            m.len() == attrs@.len(),
            attr_lookup(m, name@) == attr_lookup(m.skip(i as int), name@),
        decreases m.len() - i,
    {
        if attrs[i].0 == *name {
            proof {
                assert(m.skip(i as int)[0] == m[i as int]);
            }
            return Some(attrs[i].1.clone());
        }
        proof {
            assert(m.skip(i as int)[0] == m[i as int]);
            assert(m.skip(i as int).skip(1) =~= m.skip(i + 1 as int));
        }
        i = i + 1;
    }
    proof {
        assert(m.skip(i as int).len() == 0);
    }
    None
}

fn symbol_name_exec(pk: &AccountKey, pm: &ProductAccountMetadata) -> (r: String)
    ensures
        r@ == symbol_name_spec(*pk, pm@),
{
    let key = "symbol".to_owned();
    match attr_lookup_exec(&pm.attr_dict, &key) {
        Some(s) => s,
        None => {
            let mut n = "unnamed product ".to_owned();
            let b58 = key_base58(pk);
            n.append(b58.as_str());
            n
        },
    }
}

/// Inserting a key into a sorted duplicate-free key sequence.
pub open spec fn sorted_insert(s: Seq<AccountKey>, k: AccountKey) -> Seq<AccountKey>
    decreases s.len(),
{
    if s.len() == 0 {
        seq![k]
    } else if key_lt(k, s[0]) {
        seq![k] + s
    } else if s[0] == k {
        s
    } else {
        seq![s[0]] + sorted_insert(s.skip(1), k)
    }
}

/// The sorted duplicate-free arrangement of a key sequence.
pub open spec fn sort_dedup_spec(s: Seq<AccountKey>) -> Seq<AccountKey>
    decreases s.len(),
{
    if s.len() == 0 {
        Seq::empty()
    } else {
        sorted_insert(sort_dedup_spec(s.drop_last()), s.last())
    }
}


/// `sorted_insert` keeps a strictly ascending key sequence ascending and
/// places only the given key or old keys.
proof fn lemma_sorted_insert_sorted(s: Seq<AccountKey>, k: AccountKey)
    requires
        forall|i: int, j: int| 0 <= i < j < s.len() ==> key_lt(s[i], s[j]),
    ensures
        forall|i: int, j: int|
            0 <= i < j < sorted_insert(s, k).len() ==> key_lt(
                sorted_insert(s, k)[i],
                sorted_insert(s, k)[j],
            ),
        forall|i: int|
            0 <= i < sorted_insert(s, k).len() ==> (#[trigger] sorted_insert(s, k)[i] == k
                || exists|x: int| 0 <= x < s.len() && sorted_insert(s, k)[i] == s[x]),
    decreases s.len(),
{
    let r = sorted_insert(s, k);
    if s.len() == 0 {
    } else if key_lt(k, s[0]) {
        assert forall|i: int, j: int| 0 <= i < j < r.len() implies key_lt(r[i], r[j]) by {
            if i == 0 {
                if j > 1 {
                    lemma_key_order(k, s[0], s[j - 1]);
                }
            } else {
                assert(r[i] == s[i - 1] && r[j] == s[j - 1]);
            }
        }
        assert forall|i: int| 0 <= i < r.len() implies (#[trigger] r[i] == k || exists|x: int|
            0 <= x < s.len() && r[i] == s[x]) by {
            if i > 0 {
                assert(r[i] == s[i - 1]);
            }
        }
    } else if s[0] == k {
    } else {
        lemma_sorted_insert_sorted(s.skip(1), k);
        lemma_key_order(k, s[0], k);
        assert(key_lt(s[0], k)) by {
            if !key_lt(s[0], k) {
                assert(s[0]@ =~= k@);
                vstd::array::axiom_array_ext_equal(s[0], k);
            }
        }
        let rr = sorted_insert(s.skip(1), k);
        assert forall|i: int, j: int| 0 <= i < j < r.len() implies key_lt(r[i], r[j]) by {
            if i == 0 {
                assert(r[j] == rr[j - 1]);
                if rr[j - 1] == k {
                } else {
                    let x = choose|x: int| 0 <= x < s.skip(1).len() && rr[j - 1] == s.skip(1)[x];
                    assert(s.skip(1)[x] == s[x + 1]);
                    assert(key_lt(s[0], s[x + 1]));
                }
            } else {
                assert(r[i] == rr[i - 1] && r[j] == rr[j - 1]);
            }
        }
        assert forall|i: int| 0 <= i < r.len() implies (#[trigger] r[i] == k || exists|x: int|
            0 <= x < s.len() && r[i] == s[x]) by {
            if i > 0 {
                assert(r[i] == rr[i - 1]);
                if rr[i - 1] != k {
                    let x = choose|x: int| 0 <= x < s.skip(1).len() && rr[i - 1] == s.skip(1)[x];
                    assert(s.skip(1)[x] == s[x + 1]);
                }
            }
        }
    }
}

/// The per-product price-key list the builder walks is strictly
/// ascending, so it holds no duplicate keys.
pub proof fn lemma_sort_dedup_sorted(s: Seq<AccountKey>)
    ensures
        forall|i: int, j: int|
            0 <= i < j < sort_dedup_spec(s).len() ==> key_lt(
                sort_dedup_spec(s)[i],
                sort_dedup_spec(s)[j],
            ),
    decreases s.len(),
{
    if s.len() > 0 {
        lemma_sort_dedup_sorted(s.drop_last());
        lemma_sorted_insert_sorted(sort_dedup_spec(s.drop_last()), s.last());
    }
}

fn insert_sorted_vec(out: &mut Vec<AccountKey>, k: AccountKey)
    ensures
        final(out)@ == sorted_insert(old(out)@, k),
{
    let ghost orig = out@;
    proof {
        assert(orig.skip(0) =~= orig);
        assert(orig.take(0) + sorted_insert(orig.skip(0), k) =~= sorted_insert(orig, k));
    }
    let mut idx: usize = 0;
    while idx < out.len() && key_lt_exec(&out[idx], &k)
        invariant
            out@ == orig,
            0 <= idx <= orig.len(),
            sorted_insert(orig, k) == orig.take(idx as int) + sorted_insert(
                orig.skip(idx as int),
                k,
            ),
        decreases orig.len() - idx,
    {
        proof {
            let s = orig.skip(idx as int);
            assert(s[0] == orig[idx as int]);
            lemma_key_order(k, orig[idx as int], k);
            assert(sorted_insert(s, k) == seq![s[0]] + sorted_insert(s.skip(1), k));
            assert(s.skip(1) =~= orig.skip(idx + 1 as int));
            assert(orig.take(idx as int) + (seq![orig[idx as int]] + sorted_insert(
                orig.skip(idx + 1 as int),
                k,
            )) =~= orig.take(idx + 1 as int) + sorted_insert(orig.skip(idx + 1 as int), k));
        }
        idx = idx + 1;
    }
    if idx == out.len() {
        out.push(k);
        proof {
            assert(orig.skip(idx as int).len() == 0);
            assert(out@ =~= orig.take(idx as int) + seq![k]);
            assert(out@ =~= sorted_insert(orig, k));
        }
    } else if key_eq(&out[idx], &k) {
        proof {
            let s = orig.skip(idx as int);
            assert(s[0] == orig[idx as int]);
            assert(sorted_insert(s, k) == s) by {
                assert(!key_lt(k, s[0])) by {
                    lemma_key_order(k, s[0], k);
                }
            }
            assert(orig.take(idx as int) + orig.skip(idx as int) =~= orig);
        }
    } else {
        proof {
            let s = orig.skip(idx as int);
            assert(s[0] == orig[idx as int]);
            lemma_key_order(k, s[0], k);
            assert(key_lt(k, s[0]));
            assert(sorted_insert(s, k) == seq![k] + s);
        }
        out.insert(idx, k);
        proof {
            assert(out@ =~= orig.take(idx as int) + (seq![k] + orig.skip(idx as int)));
        }
    }
}

fn sort_dedup_exec(v: &Vec<AccountKey>) -> (r: Vec<AccountKey>)
    ensures
        r@ == sort_dedup_spec(v@),
{
    let mut out: Vec<AccountKey> = Vec::new();
    let mut i: usize = 0;
    while i < v.len()
        invariant
            0 <= i <= v@.len(),
            out@ == sort_dedup_spec(v@.take(i as int)),
        decreases v@.len() - i,
    {
        insert_sorted_vec(&mut out, v[i]);
        proof {
            assert(v@.take(i + 1 as int).drop_last() =~= v@.take(i as int));
            assert(v@.take(i + 1 as int).last() == v@[i as int]);
        }
        i = i + 1;
    }
    proof {
        assert(v@.take(v@.len() as int) =~= v@);
    }
    out
}

/// Removal of a key's first occurrence from a plain key sequence.
pub open spec fn remove_first(s: Seq<AccountKey>, k: AccountKey) -> Seq<AccountKey>
    decreases s.len(),
{
    if s.len() == 0 {
        s
    } else if s[0] == k {
        s.skip(1)
    } else {
        seq![s[0]] + remove_first(s.skip(1), k)
    }
}

fn remove_first_key(v: &mut Vec<AccountKey>, k: &AccountKey)
    ensures
        final(v)@ == remove_first(old(v)@, *k),
{
    let ghost orig = v@;
    proof {
        assert(orig.skip(0) =~= orig);
        assert(orig.take(0) + remove_first(orig.skip(0), *k) =~= remove_first(orig, *k));
    }
    let mut i: usize = 0;
    while i < v.len()
        invariant
            v@ == orig,
            0 <= i <= orig.len(),
            remove_first(orig, *k) == orig.take(i as int) + remove_first(orig.skip(i as int), *k),
            forall|j: int| 0 <= j < i ==> orig[j] != *k,
        decreases orig.len() - i,
    {
        if key_eq(&v[i], k) {
            v.remove(i);
            proof {
                let s = orig.skip(i as int);
                assert(s[0] == orig[i as int]);
                assert(remove_first(s, *k) == s.skip(1));
                assert(s.skip(1) =~= orig.skip(i + 1 as int));
                assert(v@ =~= orig.take(i as int) + orig.skip(i + 1 as int));
                assert(v@ =~= remove_first(orig, *k));
            }
            return ;
        }
        proof {
            let s = orig.skip(i as int);
            assert(s[0] == orig[i as int]);
            assert(remove_first(s, *k) == seq![s[0]] + remove_first(s.skip(1), *k));
            assert(s.skip(1) =~= orig.skip(i + 1 as int));
            assert(orig.take(i as int) + (seq![orig[i as int]] + remove_first(
                orig.skip(i + 1 as int),
                *k,
            )) =~= orig.take(i + 1 as int) + remove_first(orig.skip(i + 1 as int), *k));
        }
        i = i + 1;
    }
    proof {
        assert(orig.skip(i as int).len() == 0);
        assert(orig.take(i as int) + orig.skip(i as int) =~= orig);
        assert(v@ =~= remove_first(orig, *k));
    }
}

/// Keep-first deduplication of a key sequence.
pub open spec fn dedup_keys(s: Seq<AccountKey>) -> Seq<AccountKey>
    decreases s.len(),
{
    if s.len() == 0 {
        Seq::empty()
    } else {
        let r = dedup_keys(s.drop_last());
        if r.contains(s.last()) {
            r
        } else {
            r.push(s.last())
        }
    }
}

fn dedup_keys_exec(v: &Vec<AccountKey>) -> (r: Vec<AccountKey>)
    ensures
        r@ == dedup_keys(v@),
{
    let mut out: Vec<AccountKey> = Vec::new();
    let mut i: usize = 0;
    while i < v.len()
        invariant
            0 <= i <= v@.len(),
            out@ == dedup_keys(v@.take(i as int)),
        decreases v@.len() - i,
    {
        if !keys_contain(&out, &v[i]) {
            out.push(v[i]);
        }
        proof {
            assert(v@.take(i + 1 as int).drop_last() =~= v@.take(i as int));
            assert(v@.take(i + 1 as int).last() == v@[i as int]);
        }
        i = i + 1;
    }
    proof {
        assert(v@.take(v@.len() as int) =~= v@);
    }
    out
}

/// Removal of the first entry for a key from an association sequence;
/// nothing changes when the key is absent.
pub open spec fn remove_entry<K, V>(s: Seq<(K, V)>, k: K) -> Seq<(K, V)> {
    if has_key(s, k) {
        s.remove(find_idx(s, k))
    } else {
        s
    }
}

/// The builder's working state at the view level.
#[verifier::ext_equal]
pub ghost struct BuildState {
    pub gprod: Seq<(AccountKey, ProductAccountView)>,
    pub gp: Seq<(AccountKey, PriceAccount)>,
    pub mp: Seq<(AccountKey, PriceAccountMetadata)>,
    pub lp: Seq<(AccountKey, PriceInfo)>,
    pub rem: Seq<AccountKey>,
    pub report: Seq<(Seq<char>, SymbolViewV)>,
    pub renamed: Seq<Seq<char>>,
}

/// One price row: each source consumes its record for the key; the key is
/// struck from the orphan candidates.
pub open spec fn price_fold(st: BuildState, rows: Seq<(AccountKey, DashboardPriceView)>, keys: Seq<AccountKey>) -> (BuildState, Seq<(AccountKey, DashboardPriceView)>)
    decreases keys.len(),
{
    if keys.len() == 0 {
        (st, rows)
    } else {
        let k = keys[0];
        let row = DashboardPriceView {
            local_data: if has_key(st.lp, k) {
                Some(value_of(st.lp, k))
            } else {
                None
            },
            global_data: if has_key(st.gp, k) {
                Some(value_of(st.gp, k))
            } else {
                None
            },
            global_metadata: if has_key(st.mp, k) {
                Some(value_of(st.mp, k))
            } else {
                None
            },
        };
        price_fold(
            BuildState {
                gp: remove_entry(st.gp, k),
                mp: remove_entry(st.mp, k),
                lp: remove_entry(st.lp, k),
                rem: remove_first(st.rem, k),
                ..st
            },
            rows.push((k, row)),
            keys.skip(1),
        )
    }
}


/// The rows a price fold appends carry exactly the walked keys, in walk
/// order; with `lemma_sort_dedup_sorted` this pins each symbol view's
/// rows to ascending price-key order.
pub proof fn lemma_price_fold_keys(
    st: BuildState,
    rows: Seq<(AccountKey, DashboardPriceView)>,
    keys: Seq<AccountKey>,
)
    ensures
        price_fold(st, rows, keys).1.len() == rows.len() + keys.len(),
        forall|i: int| 0 <= i < rows.len() ==> price_fold(st, rows, keys).1[i] == rows[i],
        forall|i: int|
            0 <= i < keys.len() ==> price_fold(st, rows, keys).1[rows.len() + i].0 == keys[i],
    decreases keys.len(),
{
    if keys.len() > 0 {
        let k = keys[0];
        let row = DashboardPriceView {
            local_data: if has_key(st.lp, k) {
                Some(value_of(st.lp, k))
            } else {
                None
            },
            global_data: if has_key(st.gp, k) {
                Some(value_of(st.gp, k))
            } else {
                None
            },
            global_metadata: if has_key(st.mp, k) {
                Some(value_of(st.mp, k))
            } else {
                None
            },
        };
        let st2 = BuildState {
            gp: remove_entry(st.gp, k),
            mp: remove_entry(st.mp, k),
            lp: remove_entry(st.lp, k),
            rem: remove_first(st.rem, k),
            ..st
        };
        lemma_price_fold_keys(st2, rows.push((k, row)), keys.skip(1));
        assert forall|i: int| 0 <= i < rows.len() implies price_fold(st, rows, keys).1[i]
            == rows[i] by {
            assert(rows.push((k, row))[i] == rows[i]);
        }
        assert forall|i: int| 0 <= i < keys.len() implies price_fold(st, rows, keys).1[rows.len()
            + i].0 == keys[i] by {
            if i == 0 {
                assert(price_fold(st, rows, keys).1[rows.len() as int] == rows.push(
                    (k, row),
                )[rows.len() as int]);
            } else {
                assert(keys.skip(1)[i - 1] == keys[i]);
            }
        }
    }
}

/// One product: consume its confirmed entry, build its rows over its
/// sorted deduplicated price keys, derive its display name, and insert it
/// under that name, suffixed on a collision.
pub open spec fn build_step(st: BuildState, pk: AccountKey, pm: ProductMetadataView) -> BuildState {
    let keys = sort_dedup_spec(pm.price_accounts);
    let st1 = BuildState { gprod: remove_entry(st.gprod, pk), ..st };
    let folded = price_fold(st1, Seq::empty(), keys);
    let name0 = symbol_name_spec(pk, pm);
    let collide = has_key(folded.0.report, name0);
    let name = if collide {
        name0 + " (duplicate)"@
    } else {
        name0
    };
    let sv = SymbolViewV { product: pk, prices: folded.1 };
    BuildState {
        report: report_insert(folded.0.report, name, sv),
        renamed: if collide {
            folded.0.renamed.push(name0)
        } else {
            folded.0.renamed
        },
        ..folded.0
    }
}

pub open spec fn build_fold(st: BuildState, prods: Seq<(AccountKey, ProductMetadataView)>) -> BuildState
    decreases prods.len(),
{
    if prods.len() == 0 {
        st
    } else {
        build_fold(build_step(st, prods[0].0, prods[0].1), prods.skip(1))
    }
}

/// The whole render at the view level: the orphan candidates are every
/// price key any source knows, deduplicated keeping first occurrence; the
/// fold then walks the metadata's product entries in order.
pub open spec fn build_spec(
    local: Seq<(AccountKey, PriceInfo)>,
    gprod: Seq<(AccountKey, ProductAccountView)>,
    gp: Seq<(AccountKey, PriceAccount)>,
    mprod: Seq<(AccountKey, ProductMetadataView)>,
    mp: Seq<(AccountKey, PriceAccountMetadata)>,
) -> BuildState {
    let all = gp.map_values(|e: (AccountKey, PriceAccount)| e.0) + mp.map_values(
        |e: (AccountKey, PriceAccountMetadata)| e.0,
    ) + local.map_values(|e: (AccountKey, PriceInfo)| e.0);
    build_fold(
        BuildState {
            gprod: gprod,
            gp: gp,
            mp: mp,
            lp: local,
            rem: dedup_keys(all),
            report: Seq::empty(),
            renamed: Seq::empty(),
        },
        mprod,
    )
}

/// Two renders from snapshots with equal contents produce the same
/// report, the same renames and the same orphan warnings: the render is a
/// pure function of the three snapshots, with the product order fixed by
/// the metadata snapshot, so repeating it changes nothing.
pub proof fn lemma_render_idempotent(
    local: Seq<(AccountKey, PriceInfo)>,
    gprod: Seq<(AccountKey, ProductAccountView)>,
    gp: Seq<(AccountKey, PriceAccount)>,
    mprod: Seq<(AccountKey, ProductMetadataView)>,
    mp: Seq<(AccountKey, PriceAccountMetadata)>,
    local2: Seq<(AccountKey, PriceInfo)>,
    gprod2: Seq<(AccountKey, ProductAccountView)>,
    gp2: Seq<(AccountKey, PriceAccount)>,
    mprod2: Seq<(AccountKey, ProductMetadataView)>,
    mp2: Seq<(AccountKey, PriceAccountMetadata)>,
)
    requires
        local =~= local2,
        gprod =~= gprod2,
        gp =~= gp2,
        mprod =~= mprod2,
        mp =~= mp2,
    ensures
        build_spec(local, gprod, gp, mprod, mp) == build_spec(local2, gprod2, gp2, mprod2, mp2),
{
}


/// Striking an entry from a store commutes with taking entry views.
proof fn lemma_mapped_remove<K, V: View>(pre: Seq<(K, V)>, post: Seq<(K, V)>, k: K)
    requires
        has_key(pre, k) ==> post =~= pre.remove(find_idx(pre, k)),
        !has_key(pre, k) ==> post == pre,
    ensures
        mapped_entries(post) =~= remove_entry(mapped_entries(pre), k),
{
    lemma_find_idx(pre, k);
    lemma_find_idx_same_keys(pre, mapped_entries(pre), k);
    if has_key(pre, k) {
        let f = find_idx(pre, k);
        assert forall|j: int| 0 <= j < mapped_entries(post).len() implies mapped_entries(post)[j]
            == remove_entry(mapped_entries(pre), k)[j] by {
            if j < f {
                assert(post[j] == pre[j]);
            } else {
                assert(post[j] == pre[j + 1]);
            }
        }
    }
}

/// Merge the three snapshots into one report, consuming each source's
/// record as its price key is claimed by a product.  The result and the
/// warnings are exactly `build_spec` of the snapshots' contents: every
/// product of the metadata snapshot in order, every price key any source
/// knows accounted for, leftover keys reported as orphans, and colliding
/// display names disambiguated with a fixed suffix.  Missing product
/// metadata cannot arise here: the walk is over the metadata entries
/// themselves, so only never-claimed keys are reported.
#[verifier::rlimit(80)]
pub fn build_dashboard_data(
    local_data: KeyedStore<PriceInfo>,
    global_data: AllAccountsData,
    global_metadata: AllAccountsMetadata,
) -> (r: (Report, DashboardWarnings))
    requires
        local_data.wf(),
        global_data.product_accounts.wf(),
        global_data.price_accounts.wf(),
        global_metadata.product_accounts_metadata.wf(),
        global_metadata.price_accounts_metadata.wf(),
    ensures
        ({
            let st = build_spec(
                local_data.entries_view(),
                mapped_entries(global_data.product_accounts.entries_view()),
                global_data.price_accounts.entries_view(),
                mapped_entries(global_metadata.product_accounts_metadata.entries_view()),
                global_metadata.price_accounts_metadata.entries_view(),
            );
            r.0@ =~= st.report && r.1.renamed_symbols@.map_values(|s: String| s@) =~= st.renamed
                && r.1.orphaned_price_keys@ =~= st.rem && r.1.orphaned_product_keys@.len() == 0
        }),
        sorted_names(r.0@),
{
    let mut local = local_data;
    let mut gprod = global_data.product_accounts;
    let mut gp = global_data.price_accounts;
    let meta_products = global_metadata.product_accounts_metadata;
    let mut mp = global_metadata.price_accounts_metadata;
    let ghost lp0 = local.entries_view();
    let ghost gprod0 = mapped_entries(gprod.entries_view());
    let ghost gp0 = gp.entries_view();
    let ghost prods = mapped_entries(meta_products.entries_view());
    let ghost mp0 = mp.entries_view();

    // Every price key any source knows, in source order, deduplicated.
    let mut all: Vec<AccountKey> = Vec::new();
    let mut t: usize = 0;
    while t < gp.len()
        invariant
            0 <= t <= gp0.len(),
            gp.entries_view() == gp0,
            all@ == gp0.map_values(|e: (AccountKey, PriceAccount)| e.0).take(t as int),
        decreases gp0.len() - t,
    {
        all.push(gp.key_at(t));
        proof {
            assert(all@ =~= gp0.map_values(|e: (AccountKey, PriceAccount)| e.0).take(
                t + 1 as int,
            ));
        }
        t = t + 1;
    }
    let ghost part1 = gp0.map_values(|e: (AccountKey, PriceAccount)| e.0);
    proof {
        assert(all@ =~= part1);
    }
    let mut t2: usize = 0;
    while t2 < mp.len()
        invariant
            0 <= t2 <= mp0.len(),
            mp.entries_view() == mp0,
            all@ == part1 + mp0.map_values(|e: (AccountKey, PriceAccountMetadata)| e.0).take(
                t2 as int,
            ),
        decreases mp0.len() - t2,
    {
        all.push(mp.key_at(t2));
        proof {
            assert(all@ =~= part1 + mp0.map_values(
                |e: (AccountKey, PriceAccountMetadata)| e.0,
            ).take(t2 + 1 as int));
        }
        t2 = t2 + 1;
    }
    let ghost part2 = part1 + mp0.map_values(|e: (AccountKey, PriceAccountMetadata)| e.0);
    proof {
        assert(all@ =~= part2);
    }
    let mut t3: usize = 0;
    while t3 < local.len()
        invariant
            0 <= t3 <= lp0.len(),
            local.entries_view() == lp0,
            all@ == part2 + lp0.map_values(|e: (AccountKey, PriceInfo)| e.0).take(t3 as int),
        decreases lp0.len() - t3,
    {
        all.push(local.key_at(t3));
        proof {
            assert(all@ =~= part2 + lp0.map_values(|e: (AccountKey, PriceInfo)| e.0).take(
                t3 + 1 as int,
            ));
        }
        t3 = t3 + 1;
    }
    proof {
        assert(all@ =~= part2 + lp0.map_values(|e: (AccountKey, PriceInfo)| e.0));
    }
    let mut rem = dedup_keys_exec(&all);

    let ghost st0 = BuildState {
        gprod: gprod0,
        gp: gp0,
        mp: mp0,
        lp: lp0,
        rem: rem@,
        report: Seq::empty(),
        renamed: Seq::empty(),
    };

    let mut report = Report::new();
    let mut renamed: Vec<String> = Vec::new();
    let n = meta_products.len();
    proof {
        assert(prods.skip(0) =~= prods);
        assert(renamed@.map_values(|s: String| s@) =~= Seq::<Seq<char>>::empty());
        assert(BuildState {
            gprod: mapped_entries(gprod.entries_view()),
            gp: gp.entries_view(),
            mp: mp.entries_view(),
            lp: local.entries_view(),
            rem: rem@,
            report: report@,
            renamed: renamed@.map_values(|s: String| s@),
        } =~= st0);
    }
    let mut i: usize = 0;
    while i < n
        invariant
            0 <= i <= n,
            n == prods.len(),
            meta_products.entries_view().len() == prods.len(),
            prods == mapped_entries(meta_products.entries_view()),
            meta_products.wf(),
            local.wf(),
            gprod.wf(),
            gp.wf(),
            mp.wf(),
            sorted_names(report@),
            build_fold(
                BuildState {
                    gprod: mapped_entries(gprod.entries_view()),
                    gp: gp.entries_view(),
                    mp: mp.entries_view(),
                    lp: local.entries_view(),
                    rem: rem@,
                    report: report@,
                    renamed: renamed@.map_values(|s: String| s@),
                },
                prods.skip(i as int),
            ) == build_fold(st0, prods),
        decreases n - i,
    {
        let ghost stpre = BuildState {
            gprod: mapped_entries(gprod.entries_view()),
            gp: gp.entries_view(),
            mp: mp.entries_view(),
            lp: local.entries_view(),
            rem: rem@,
            report: report@,
            renamed: renamed@.map_values(|s: String| s@),
        };
        let pk = meta_products.key_at(i);
        let ghost pmv = prods[i as int].1;
        proof {
            assert(prods[i as int].0 == pk);
        }

        let ghost gprod_pre = gprod.entries_view();
        let discarded = gprod.take(&pk);
        proof {
            lemma_mapped_remove(gprod_pre, gprod.entries_view(), pk);
        }
        let ghost st1 = BuildState { gprod: remove_entry(stpre.gprod, pk), ..stpre };

        let keys = {
            let pmref = meta_products.value_at(i);
            sort_dedup_exec(&pmref.price_accounts)
        };
        proof {
            assert(keys@ == sort_dedup_spec(pmv.price_accounts));
        }
        let mut rows: Vec<(AccountKey, DashboardPriceView)> = Vec::new();
        let kn = keys.len();
        proof {
            assert(keys@.skip(0) =~= keys@);
            assert(BuildState {
                gprod: mapped_entries(gprod.entries_view()),
                gp: gp.entries_view(),
                mp: mp.entries_view(),
                lp: local.entries_view(),
                rem: rem@,
                report: report@,
                renamed: renamed@.map_values(|s: String| s@),
            } =~= st1);
        }
        let mut j: usize = 0;
        while j < kn
            invariant
                0 <= j <= kn,
                kn == keys@.len(),
                local.wf(),
                gp.wf(),
                mp.wf(),
                gprod.wf(),
                meta_products.wf(),
                meta_products.entries_view().len() == prods.len(),
                prods == mapped_entries(meta_products.entries_view()),
                price_fold(
                    BuildState {
                        gprod: mapped_entries(gprod.entries_view()),
                        gp: gp.entries_view(),
                        mp: mp.entries_view(),
                        lp: local.entries_view(),
                        rem: rem@,
                        report: report@,
                        renamed: renamed@.map_values(|s: String| s@),
                    },
                    rows@,
                    keys@.skip(j as int),
                ) == price_fold(st1, Seq::empty(), keys@),
            decreases kn - j,
        {
            let ghost inpre = BuildState {
                gprod: mapped_entries(gprod.entries_view()),
                gp: gp.entries_view(),
                mp: mp.entries_view(),
                lp: local.entries_view(),
                rem: rem@,
                report: report@,
                renamed: renamed@.map_values(|s: String| s@),
            };
            let k = keys[j];
            let g = gp.take(&k);
            let md = mp.take(&k);
            let l = local.take(&k);
            remove_first_key(&mut rem, &k);
            let row = DashboardPriceView { local_data: l, global_data: g, global_metadata: md };
            rows.push((k, row));
            proof {
                let s = keys@.skip(j as int);
                assert(s[0] == keys@[j as int]);
                assert(s.skip(1) =~= keys@.skip(j + 1 as int));
                assert(gp.entries_view() =~= remove_entry(inpre.gp, k));
                assert(mp.entries_view() =~= remove_entry(inpre.mp, k));
                assert(local.entries_view() =~= remove_entry(inpre.lp, k));
                assert(BuildState {
                    gprod: mapped_entries(gprod.entries_view()),
                    gp: gp.entries_view(),
                    mp: mp.entries_view(),
                    lp: local.entries_view(),
                    rem: rem@,
                    report: report@,
                    renamed: renamed@.map_values(|s2: String| s2@),
                } =~= BuildState {
                    gp: remove_entry(inpre.gp, k),
                    mp: remove_entry(inpre.mp, k),
                    lp: remove_entry(inpre.lp, k),
                    rem: remove_first(inpre.rem, k),
                    ..inpre
                });
            }
            j = j + 1;
        }
        let ghost folded = price_fold(st1, Seq::empty(), keys@);

        let name0 = {
            let pmref = meta_products.value_at(i);
            symbol_name_exec(&pk, pmref)
        };
        proof {
            assert(name0@ == symbol_name_spec(pk, pmv));
        }
        let collide = report.contains_name(&name0);
        let name = if collide {
            renamed.push(name0.clone());
            let mut n2 = name0;
            n2.append(" (duplicate)");
            n2
        } else {
            name0
        };
        let sv = DashboardSymbolView { product: pk, prices: rows };
        let ghost svv = sv@;
        let ghost namev = name@;
        proof {
            lemma_report_insert_sorted(report@, namev, svv);
        }
        report.insert(name, sv);
        proof {
            assert(build_fold(stpre, prods.skip(i as int)) == build_fold(
                build_step(stpre, pk, pmv),
                prods.skip(i as int).skip(1),
            )) by {
                assert(prods.skip(i as int)[0] == prods[i as int]);
            }
            assert(prods.skip(i as int).skip(1) =~= prods.skip(i + 1 as int));
            assert(folded.0.report == stpre.report);
            assert(folded.0.renamed == stpre.renamed);
            let stnext = build_step(stpre, pk, pmv);
            assert(BuildState {
                gprod: mapped_entries(gprod.entries_view()),
                gp: gp.entries_view(),
                mp: mp.entries_view(),
                lp: local.entries_view(),
                rem: rem@,
                report: report@,
                renamed: renamed@.map_values(|s2: String| s2@),
            } =~= stnext);
        }
        i = i + 1;
    }
    proof {
        assert(prods.skip(n as int).len() == 0);
    }
    let warnings = DashboardWarnings {
        renamed_symbols: renamed,
        orphaned_price_keys: rem,
        orphaned_product_keys: Vec::new(),
    };
    (report, warnings)
}


/// One row of the rendered state-overview table.
pub struct DashboardRow {
    pub symbol: String,
    pub product: String,
    pub price_key: String,
    pub price: String,
    pub last_publish: String,
    pub last_local_update: String,
}

#[verifier::ext_equal]
pub ghost struct RowV {
    pub symbol: Seq<char>,
    pub product: Seq<char>,
    pub price_key: Seq<char>,
    pub price: Seq<char>,
    pub last_publish: Seq<char>,
    pub last_local_update: Seq<char>,
}

impl View for DashboardRow {
    type V = RowV;

    open spec fn view(&self) -> RowV {
        RowV {
            symbol: self.symbol@,
            product: self.product@,
            price_key: self.price_key@,
            price: self.price@,
            last_publish: self.last_publish@,
            last_local_update: self.last_local_update@,
        }
    }
}

/// The six cells of one row: keys in base-58; the confirmed price
/// with two decimal places or a "no data" marker; the confirmed and local
/// timestamps through the three-way timestamp rendering.
pub open spec fn row_spec(
    name: Seq<char>,
    product: AccountKey,
    pk: AccountKey,
    v: DashboardPriceView,
) -> RowV {
    RowV {
        symbol: name,
        product: base58_spec(product@),
        price_key: base58_spec(pk@),
        price: match v.global_data {
            Some(g) => price_string(g.price as int, g.expo as int),
            None => "no data"@,
        },
        last_publish: match v.global_data {
            Some(g) => timestamp_cell_spec(Some(g.timestamp)),
            None => timestamp_cell_spec(None),
        },
        last_local_update: match v.local_data {
            Some(l) => timestamp_cell_spec(Some(l.timestamp)),
            None => timestamp_cell_spec(None),
        },
    }
}

pub open spec fn rows_of_symbol(
    name: Seq<char>,
    product: AccountKey,
    prices: Seq<(AccountKey, DashboardPriceView)>,
) -> Seq<RowV> {
    prices.map_values(|p: (AccountKey, DashboardPriceView)| row_spec(name, product, p.0, p.1))
}

/// All rows of a report, one per (symbol, price key) pair, in report
/// order.
pub open spec fn rows_spec(entries: Seq<(Seq<char>, SymbolViewV)>) -> Seq<RowV>
    decreases entries.len(),
{
    if entries.len() == 0 {
        Seq::empty()
    } else {
        rows_of_symbol(entries[0].0, entries[0].1.product, entries[0].1.prices) + rows_spec(
            entries.skip(1),
        )
    }
}

fn dashboard_row(
    name: &String,
    product: &AccountKey,
    pk: &AccountKey,
    v: &DashboardPriceView,
) -> (r: DashboardRow)
    ensures
        r@ == row_spec(name@, *product, *pk, *v),
{
    let price = match v.global_data {
        Some(g) => format_price(g.price, g.expo),
        None => "no data".to_owned(),
    };
    let last_publish = match v.global_data {
        Some(g) => timestamp_cell(Some(g.timestamp)),
        None => timestamp_cell(None),
    };
    let last_local_update = match v.local_data {
        Some(l) => timestamp_cell(Some(l.timestamp)),
        None => timestamp_cell(None),
    };
    DashboardRow {
        symbol: name.clone(),
        product: key_base58(product),
        price_key: key_base58(pk),
        price,
        last_publish,
        last_local_update,
    }
}

/// Render every row of the report, one per (symbol, price key) pair, in
/// report order: ascending by display name, and within one symbol by the
/// ascending price keys its view was built over.
pub fn dashboard_rows(report: &Report) -> (rows: Vec<DashboardRow>)
    ensures
        rows@.map_values(|r: DashboardRow| r@) =~= rows_spec(report@),
{
    let mut out: Vec<DashboardRow> = Vec::new();
    let n = report.len();
    proof {
        assert(report@.skip(0) =~= report@);
        assert(out@.map_values(|r: DashboardRow| r@) =~= Seq::<RowV>::empty());
    }
    let mut i: usize = 0;
    while i < n
        invariant
            0 <= i <= n,
            n == report@.len(),
            out@.map_values(|r: DashboardRow| r@) + rows_spec(report@.skip(i as int))
                =~= rows_spec(report@),
        decreases n - i,
    {
        let name = report.name_at(i);
        let sv = report.view_at(i);
        let ghost pre = out@.map_values(|r: DashboardRow| r@);
        let m = sv.prices.len();
        let mut j: usize = 0;
        while j < m
            invariant
                0 <= j <= m,
                m == sv.prices@.len(),
                out@.map_values(|r: DashboardRow| r@) =~= pre + rows_of_symbol(
                    name@,
                    sv.product,
                    sv.prices@,
                ).take(j as int),
            decreases m - j,
        {
            let row = dashboard_row(name, &sv.product, &sv.prices[j].0, &sv.prices[j].1);
            let ghost rowv = row@;
            out.push(row);
            proof {
                let rs = rows_of_symbol(name@, sv.product, sv.prices@);
                assert(rs[j as int] == row_spec(
                    name@,
                    sv.product,
                    sv.prices@[j as int].0,
                    sv.prices@[j as int].1,
                ));
                assert(rowv == rs[j as int]);
                assert(out@.map_values(|r: DashboardRow| r@) =~= pre + rs.take(j as int) + seq![
                    rowv,
                ]);
                assert(pre + rs.take(j as int) + seq![rs[j as int]] =~= pre + rs.take(
                    j + 1 as int,
                ));
            }
            j = j + 1;
        }
        proof {
            let rs = rows_of_symbol(name@, sv.product, sv.prices@);
            assert(rs.take(m as int) =~= rs);
            let s = report@.skip(i as int);
            assert(s[0] == report@[i as int]);
            assert(s.skip(1) =~= report@.skip(i + 1 as int));
            assert(pre + rs + rows_spec(report@.skip(i + 1 as int)) =~= rows_spec(report@));
            assert(out@.map_values(|r: DashboardRow| r@) + rows_spec(report@.skip(i + 1 as int))
                =~= rows_spec(report@));
        }
        i = i + 1;
    }
    proof {
        assert(rows_spec(report@.skip(n as int)) =~= Seq::<RowV>::empty());
        assert(out@.map_values(|r: DashboardRow| r@) =~= rows_spec(report@));
    }
    out
}

} // verus!
