use vstd::prelude::*;
use crate::assoc::{mapped_entries, KeyedStore};
use crate::keys::AccountKey;

verus! {

/// A directory node of the account graph: a chain link naming product
/// accounts.  `num` says how many leading slots of `products` are in use;
/// `next` names the sibling mapping account, or the sentinel at the end of
/// the chain.
#[derive(Debug)]
pub struct MappingAccount {
    pub num: u32,
    pub next: AccountKey,
    pub products: Vec<AccountKey>,
}

#[verifier::ext_equal]
pub ghost struct MappingView {
    pub num: u32,
    pub next: AccountKey,
    pub products: Seq<AccountKey>,
}

impl View for MappingAccount {
    type V = MappingView;

    open spec fn view(&self) -> MappingView {
        MappingView { num: self.num, next: self.next, products: self.products@ }
    }
}

/// Decoded product metadata: the head of the product's price-account chain
/// and its free-form attribute dictionary.
#[derive(Debug)]
pub struct ProductData {
    pub px_acc: AccountKey,
    pub attrs: Vec<(String, String)>,
}

#[verifier::ext_equal]
pub ghost struct ProductDataView {
    pub px_acc: AccountKey,
    pub attrs: Seq<(Seq<char>, Seq<char>)>,
}

impl View for ProductData {
    type V = ProductDataView;

    open spec fn view(&self) -> ProductDataView {
        ProductDataView {
            px_acc: self.px_acc,
            attrs: self.attrs@.map_values(|p: (String, String)| (p.0@, p.1@)),
        }
    }
}

/// A product account as the synchronizer holds it: the decoded metadata
/// plus the set of price-account keys discovered by walking the product's
/// price chain during the most recent full rebuild.
#[derive(Debug)]
pub struct ProductAccount {
    pub account_data: ProductData,
    pub price_accounts: Vec<AccountKey>,
}

#[verifier::ext_equal]
pub ghost struct ProductAccountView {
    pub account_data: ProductDataView,
    pub price_accounts: Seq<AccountKey>,
}

impl View for ProductAccount {
    type V = ProductAccountView;

    open spec fn view(&self) -> ProductAccountView {
        ProductAccountView {
            account_data: self.account_data@,
            price_accounts: self.price_accounts@,
        }
    }
}

/// Decoded price state: the current aggregate price, its exponent and
/// timestamp, and the key of the sibling price account for the same
/// product (the sentinel at the end of the chain).
#[derive(Clone, Copy, Debug)]
pub struct PriceAccount {
    pub price: i64,
    pub conf: u64,
    pub expo: i32,
    pub timestamp: i64,
    pub next: AccountKey,
}

/// The synchronizer's authoritative snapshot: three keyed mappings over
/// the same 32-byte key space.
pub struct Data {
    pub mapping_accounts: KeyedStore<MappingAccount>,
    pub product_accounts: KeyedStore<ProductAccount>,
    pub price_accounts: KeyedStore<PriceAccount>,
}

#[verifier::ext_equal]
pub ghost struct DataView {
    pub mappings: Seq<(AccountKey, MappingView)>,
    pub products: Seq<(AccountKey, ProductAccountView)>,
    pub prices: Seq<(AccountKey, PriceAccount)>,
}

impl View for Data {
    type V = DataView;

    open spec fn view(&self) -> DataView {
        DataView {
            mappings: mapped_entries(self.mapping_accounts.entries_view()),
            products: mapped_entries(self.product_accounts.entries_view()),
            prices: self.price_accounts.entries_view(),
        }
    }
}

impl Data {
    pub open spec fn wf(self) -> bool {
        self.mapping_accounts.wf() && self.product_accounts.wf() && self.price_accounts.wf()
    }

    pub fn new() -> (r: Self)
        ensures
            r.wf(),
            r@.mappings.len() == 0,
            r@.products.len() == 0,
            r@.prices.len() == 0,
    {
        Data {
            mapping_accounts: KeyedStore::new(),
            product_accounts: KeyedStore::new(),
            price_accounts: KeyedStore::new(),
        }
    }
}

/// The product keys a mapping account actually references: the used prefix
/// of its product table.
pub open spec fn spec_referenced_products(m: MappingView) -> Seq<AccountKey> {
    m.products.take(if m.num as int <= m.products.len() as int {
        m.num as int
    } else {
        m.products.len() as int
    })
}

pub fn referenced_products(m: &MappingAccount) -> (r: Vec<AccountKey>)
    ensures
        r@ == spec_referenced_products(m@),
{
    let n: usize = if (m.num as usize) <= m.products.len() {
        m.num as usize
    } else {
        m.products.len()
    };
    let mut out: Vec<AccountKey> = Vec::new();
    let mut i: usize = 0;
    while i < n
        invariant
            0 <= i <= n,
            n <= m.products.len(),
            out@ == m.products@.take(i as int),
        decreases n - i,
    {
        out.push(m.products[i]);
        proof {
            assert(out@ =~= m.products@.take(i + 1 as int));
        }
        i = i + 1;
    }
    proof {
        assert(out@ =~= spec_referenced_products(m@));
    }
    out
}

} // verus!
