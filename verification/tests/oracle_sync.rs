use pyth_agent::accounts::PriceAccount;
use pyth_agent::decode::DecodeError;
use pyth_agent::keys::AccountKey;
use pyth_agent::oracle::{Oracle, PollAction, PollMachine, Update};
use pyth_sdk_solana::state::{AccountType, MAGIC, VERSION_2};

fn key(n: u8) -> AccountKey {
    let mut k = [0u8; 32];
    k[0] = n;
    k[31] = n;
    k
}

fn mapping_bytes(next: AccountKey, products: &[AccountKey]) -> Vec<u8> {
    let mut m: pyth_sdk_solana::state::MappingAccount = bytemuck::Zeroable::zeroed();
    m.magic = MAGIC;
    m.ver = VERSION_2;
    m.atype = AccountType::Mapping as u32;
    m.num = products.len() as u32;
    m.next = next.into();
    for (i, p) in products.iter().enumerate() {
        m.products[i] = (*p).into();
    }
    bytemuck::bytes_of(&m).to_vec()
}

fn product_bytes(px_acc: AccountKey, attrs: &[(&str, &str)]) -> Vec<u8> {
    let mut p: pyth_sdk_solana::state::ProductAccount = bytemuck::Zeroable::zeroed();
    p.magic = MAGIC;
    p.ver = VERSION_2;
    p.atype = AccountType::Product as u32;
    p.px_acc = px_acc.into();
    let mut used = 0usize;
    for (k, v) in attrs {
        p.attr[used] = k.len() as u8;
        used += 1;
        p.attr[used..used + k.len()].copy_from_slice(k.as_bytes());
        used += k.len();
        p.attr[used] = v.len() as u8;
        used += 1;
        p.attr[used..used + v.len()].copy_from_slice(v.as_bytes());
        used += v.len();
    }
    p.size = (pyth_sdk_solana::state::PROD_HDR_SIZE + used) as u32;
    bytemuck::bytes_of(&p).to_vec()
}

fn price_bytes(price: i64, expo: i32, timestamp: i64, next: AccountKey) -> Vec<u8> {
    let mut p: pyth_sdk_solana::state::PriceAccount = bytemuck::Zeroable::zeroed();
    p.magic = MAGIC;
    p.ver = VERSION_2;
    p.atype = AccountType::Price as u32;
    p.expo = expo;
    p.timestamp = timestamp;
    p.agg.price = price;
    p.agg.conf = 7;
    p.next = next.into();
    bytemuck::bytes_of(&p).to_vec()
}

fn expect_fetch(a: &PollAction) -> AccountKey {
    match a {
        PollAction::Fetch(k) => *k,
        PollAction::Commit => panic!("expected a fetch, got commit"),
    }
}

/// Drives one full poll rebuild: a two-node mapping chain, one product
/// with a two-node price chain, then the refetch pass over both listed
/// price keys.
#[test]
fn poll_cycle_rebuilds_graph_and_forwards_everything() {
    let root = key(1);
    let map2 = key(2);
    let prod = key(3);
    let px1 = key(4);
    let px2 = key(5);
    let zero = [0u8; 32];

    let (mut m, a0) = PollMachine::start(root);
    assert_eq!(expect_fetch(&a0), root);
    let a1 = m.feed(&mapping_bytes(map2, &[])).unwrap();
    assert_eq!(expect_fetch(&a1), map2);
    let a2 = m.feed(&mapping_bytes(zero, &[prod])).unwrap();
    assert_eq!(expect_fetch(&a2), prod);
    // walk the price chain
    let a3 = m
        .feed(&product_bytes(px1, &[("symbol", "BTC/USD")]))
        .unwrap();
    assert_eq!(expect_fetch(&a3), px1);
    let a4 = m.feed(&price_bytes(10, -2, 100, px2)).unwrap();
    assert_eq!(expect_fetch(&a4), px2);
    let a5 = m.feed(&price_bytes(11, -2, 101, zero)).unwrap();
    // refetch pass over the two listed keys
    assert_eq!(expect_fetch(&a5), px1);
    let a6 = m.feed(&price_bytes(6450000, -2, 1690000000, px2)).unwrap();
    assert_eq!(expect_fetch(&a6), px2);
    let a7 = m.feed(&price_bytes(11, -2, 101, zero)).unwrap();
    assert!(matches!(a7, PollAction::Commit));
    assert!(m.is_done());

    let mut oracle = Oracle::new();
    let updates = oracle.commit_poll(m);
    // one product and two prices: one message per account, no diffing
    assert_eq!(updates.len(), 3);
    match &updates[0] {
        Update::ProductAccountUpdate { account_key, account } => {
            assert_eq!(*account_key, prod);
            assert_eq!(account.price_accounts, vec![px1, px2]);
            assert_eq!(account.account_data.px_acc, px1);
            assert_eq!(
                account.account_data.attrs,
                vec![("symbol".to_string(), "BTC/USD".to_string())]
            );
        }
        _ => panic!("expected the product update first"),
    }
    match &updates[1] {
        Update::PriceAccountUpdate { account_key, account } => {
            assert_eq!(*account_key, px1);
            assert_eq!(account.price, 6450000);
            assert_eq!(account.expo, -2);
            assert_eq!(account.timestamp, 1690000000);
            assert_eq!(account.conf, 7);
            assert_eq!(account.next, px2);
        }
        _ => panic!("expected a price update second"),
    }
    match &updates[2] {
        Update::PriceAccountUpdate { account_key, account } => {
            assert_eq!(*account_key, px2);
            assert_eq!(account.price, 11);
        }
        _ => panic!("expected a price update third"),
    }
}

/// A sentinel root is a chain of zero nodes: the walk ends after zero
/// fetches and the rebuilt graph is empty.
#[test]
fn poll_on_sentinel_root_commits_empty_graph() {
    let (m, a) = PollMachine::start([0u8; 32]);
    assert!(matches!(a, PollAction::Commit));
    assert!(m.is_done());
    let mut oracle = Oracle::new();
    let updates = oracle.commit_poll(m);
    assert_eq!(updates.len(), 0);
}

fn oracle_with_one_price(px: AccountKey) -> Oracle {
    let root = key(1);
    let prod = key(3);
    let zero = [0u8; 32];
    let (mut m, _) = PollMachine::start(root);
    m.feed(&mapping_bytes(zero, &[prod])).unwrap();
    m.feed(&product_bytes(px, &[("symbol", "X/Y")])).unwrap();
    m.feed(&price_bytes(1, 0, 1, zero)).unwrap();
    m.feed(&price_bytes(1, 0, 1, zero)).unwrap();
    assert!(m.is_done());
    let mut oracle = Oracle::new();
    oracle.commit_poll(m);
    oracle
}

/// A push notification is applied, and one message forwarded, exactly
/// when its key is already in the price map.
#[test]
fn push_applied_iff_key_known() {
    let px = key(4);
    let unknown = key(9);
    let zero = [0u8; 32];
    let mut oracle = oracle_with_one_price(px);

    // known key: entry replaced, one message out
    let r = oracle
        .handle_account_update(&px, &price_bytes(42, -1, 123, zero))
        .unwrap();
    match r {
        Some(Update::PriceAccountUpdate { account_key, account }) => {
            assert_eq!(account_key, px);
            assert_eq!(account.price, 42);
            assert_eq!(account.expo, -1);
            assert_eq!(account.timestamp, 123);
        }
        _ => panic!("expected the update to be applied and forwarded"),
    }

    // unknown key: silently ignored, nothing decoded, nothing forwarded
    let r2 = oracle
        .handle_account_update(&unknown, &price_bytes(42, -1, 123, zero))
        .unwrap();
    assert!(r2.is_none());

    // the graph still answers with the replaced entry, not the ignored one
    let updates = oracle.send_all_data_to_global_store();
    assert_eq!(updates.len(), 2);
    let found: Vec<&PriceAccount> = updates
        .iter()
        .filter_map(|u| match u {
            Update::PriceAccountUpdate { account_key, account } if *account_key == px => {
                Some(account)
            }
            _ => None,
        })
        .collect();
    assert_eq!(found.len(), 1);
    assert_eq!(found[0].price, 42);
}

/// Each decode failure keeps the graph unchanged and names its cause.
#[test]
fn decode_failures_abort_without_damage() {
    let px = key(4);
    let zero = [0u8; 32];
    let mut oracle = oracle_with_one_price(px);

    // short garbage: invalid account data
    let e = oracle.handle_account_update(&px, &[1, 2, 3]).unwrap_err();
    assert_eq!(e, DecodeError::InvalidAccountData);

    // right layout, wrong version number
    let mut bad_ver = price_bytes(5, 0, 5, zero);
    bad_ver[4..8].copy_from_slice(&7u32.to_le_bytes());
    let e2 = oracle.handle_account_update(&px, &bad_ver).unwrap_err();
    assert_eq!(e2, DecodeError::BadVersionNumber);

    // a mapping account where a price account was expected
    let mut m: pyth_sdk_solana::state::PriceAccount = bytemuck::Zeroable::zeroed();
    m.magic = MAGIC;
    m.ver = VERSION_2;
    m.atype = AccountType::Mapping as u32;
    let e3 = oracle
        .handle_account_update(&px, bytemuck::bytes_of(&m))
        .unwrap_err();
    assert_eq!(e3, DecodeError::WrongAccountType);

    // the stored price survived all three failures
    let updates = oracle.send_all_data_to_global_store();
    assert_eq!(updates.len(), 2);

    // a failing poll feed likewise leaves the machine reusable
    let (mut pm, _) = PollMachine::start(key(1));
    assert_eq!(pm.feed(&[0u8; 8]).unwrap_err(), DecodeError::InvalidAccountData);
    let a = pm.feed(&mapping_bytes(zero, &[])).unwrap();
    assert!(matches!(a, PollAction::Commit));
}

/// The mapping walk fetches one node per `next` link and stops at the
/// sentinel: three nodes, three mapping fetches, and the walk leaves the
/// mapping phase only on the third.
#[test]
fn mapping_chain_stops_exactly_at_sentinel() {
    let zero = [0u8; 32];
    let n1 = key(1);
    let n2 = key(2);
    let n3 = key(3);
    let (mut m, a0) = PollMachine::start(n1);
    assert_eq!(expect_fetch(&a0), n1);
    let a1 = m.feed(&mapping_bytes(n2, &[])).unwrap();
    assert_eq!(expect_fetch(&a1), n2);
    let a2 = m.feed(&mapping_bytes(n3, &[])).unwrap();
    assert_eq!(expect_fetch(&a2), n3);
    let a3 = m.feed(&mapping_bytes(zero, &[])).unwrap();
    assert!(matches!(a3, PollAction::Commit));
}

/// Only the used prefix of a mapping's product table is referenced.
#[test]
fn mapping_num_limits_referenced_products() {
    let zero = [0u8; 32];
    let p1 = key(7);
    let p2 = key(8);
    let mut raw: pyth_sdk_solana::state::MappingAccount = bytemuck::Zeroable::zeroed();
    raw.magic = MAGIC;
    raw.ver = VERSION_2;
    raw.atype = AccountType::Mapping as u32;
    raw.num = 1;
    raw.next = zero.into();
    raw.products[0] = p1.into();
    raw.products[1] = p2.into();
    let (mut m, _) = PollMachine::start(key(1));
    let a = m.feed(bytemuck::bytes_of(&raw)).unwrap();
    // only p1 is queued: the machine asks for it, and after its empty
    // price chain the rebuild completes without ever asking for p2
    assert_eq!(expect_fetch(&a), p1);
    let a2 = m.feed(&product_bytes(zero, &[])).unwrap();
    assert!(matches!(a2, PollAction::Commit));
}

/// A price identifier names the same 32 bytes as its account key.
#[test]
fn price_identifier_is_byte_for_byte() {
    let k = key(7);
    let id = pyth_agent::keys::key_to_identifier(&k);
    assert_eq!(id, k);
    assert_eq!(pyth_agent::keys::identifier_to_key(&id), k);
}

/// Account bytes arriving at any slice offset decode without aborting:
/// a misaligned view of valid bytes still yields the decoded record.
#[test]
fn misaligned_input_slices_are_handled() {
    let px = key(4);
    let zero = [0u8; 32];
    let mut oracle = oracle_with_one_price(px);

    let mut padded = vec![0u8; 1];
    padded.extend_from_slice(&price_bytes(99, -2, 55, zero));
    let r = oracle.handle_account_update(&px, &padded[1..]).unwrap();
    match r {
        Some(Update::PriceAccountUpdate { account, .. }) => assert_eq!(account.price, 99),
        _ => panic!("expected the misaligned but valid bytes to decode"),
    }

    // a misaligned slice of garbage fails cleanly too
    let garbage = vec![7u8; 3000];
    let e = oracle.handle_account_update(&px, &garbage[1..]).unwrap_err();
    assert_eq!(e, DecodeError::InvalidAccountData);

    // a misaligned mapping account decodes during the walk as well
    let (mut m, _) = PollMachine::start(key(1));
    let mut mpadded = vec![0u8; 1];
    mpadded.extend_from_slice(&mapping_bytes(zero, &[]));
    let a = m.feed(&mpadded[1..]).unwrap();
    assert!(matches!(a, PollAction::Commit));
}
