use pyth_agent::accounts::{PriceAccount, ProductAccount, ProductData};
use pyth_agent::assoc::KeyedStore;
use pyth_agent::dashboard::{
    build_dashboard_data, dashboard_rows, AllAccountsData, AllAccountsMetadata, PriceAccountMetadata,
    PriceInfo, ProductAccountMetadata,
};
use pyth_agent::fmt::{format_price, i64_dec_string, key_base58, timestamp_cell};
use pyth_agent::keys::AccountKey;

fn key(n: u8) -> AccountKey {
    let mut k = [0u8; 32];
    k[0] = n;
    k
}

fn price_account(price: i64, expo: i32, timestamp: i64) -> PriceAccount {
    PriceAccount { price, conf: 1, expo, timestamp, next: [0u8; 32] }
}

fn product_meta(attrs: &[(&str, &str)], prices: &[AccountKey]) -> ProductAccountMetadata {
    ProductAccountMetadata {
        attr_dict: attrs
            .iter()
            .map(|(k, v)| (k.to_string(), v.to_string()))
            .collect(),
        price_accounts: prices.to_vec(),
    }
}

fn empty_data() -> AllAccountsData {
    AllAccountsData { product_accounts: KeyedStore::new(), price_accounts: KeyedStore::new() }
}

fn empty_meta() -> AllAccountsMetadata {
    AllAccountsMetadata {
        product_accounts_metadata: KeyedStore::new(),
        price_accounts_metadata: KeyedStore::new(),
    }
}

fn chrono_utc(ts: i64) -> String {
    chrono::DateTime::from_timestamp(ts, 0)
        .unwrap()
        .naive_utc()
        .format("%Y-%m-%d %H:%M:%S")
        .to_string()
}

/// One product "BTC/USD" with two price keys; confirmed data only for the
/// first, pending data only for the second.
#[test]
fn btc_usd_scenario_merges_three_sources() {
    let prod = key(1);
    let p1 = key(2);
    let p2 = key(3);

    let mut meta = empty_meta();
    meta.product_accounts_metadata
        .insert(prod, product_meta(&[("symbol", "BTC/USD")], &[p1, p2]));

    let mut data = empty_data();
    data.price_accounts
        .insert(p1, price_account(6450000, -2, 1690000000));

    let mut local: KeyedStore<PriceInfo> = KeyedStore::new();
    local.insert(p2, PriceInfo { price: 5, conf: 1, timestamp: 1690000100 });

    let (report, warnings) = build_dashboard_data(local, data, meta);
    assert_eq!(report.len(), 1);
    let view = report.get(&"BTC/USD".to_string()).expect("symbol present");
    assert_eq!(view.product, prod);
    assert_eq!(view.prices.len(), 2);
    assert!(warnings.orphaned_price_keys.is_empty());
    assert!(warnings.orphaned_product_keys.is_empty());
    assert!(warnings.renamed_symbols.is_empty());

    let rows = dashboard_rows(&report);
    assert_eq!(rows.len(), 2);
    // p1 sorts before p2 (keys differ in the first byte)
    assert_eq!(rows[0].symbol, "BTC/USD");
    assert_eq!(rows[0].product, bs58::encode(&prod).into_string());
    assert_eq!(rows[0].price_key, bs58::encode(&p1).into_string());
    assert_eq!(rows[0].price, "64500.00");
    assert_eq!(rows[0].last_publish, chrono_utc(1690000000));
    assert_eq!(rows[0].last_local_update, "no data");

    assert_eq!(rows[1].price_key, bs58::encode(&p2).into_string());
    assert_eq!(rows[1].price, "no data");
    assert_eq!(rows[1].last_publish, "no data");
    assert_eq!(rows[1].last_local_update, chrono_utc(1690000100));
}

/// Two distinct products resolving to the same symbol: the second one
/// inserted is renamed with the fixed suffix.
#[test]
fn duplicate_symbol_names_are_disambiguated() {
    let prod_a = key(1);
    let prod_b = key(2);

    let mut meta = empty_meta();
    meta.product_accounts_metadata
        .insert(prod_a, product_meta(&[("symbol", "ETH/USD")], &[]));
    meta.product_accounts_metadata
        .insert(prod_b, product_meta(&[("symbol", "ETH/USD")], &[]));

    let (report, warnings) = build_dashboard_data(KeyedStore::new(), empty_data(), meta);
    assert_eq!(report.len(), 2);
    let first = report.get(&"ETH/USD".to_string()).expect("plain name");
    let second = report
        .get(&"ETH/USD (duplicate)".to_string())
        .expect("suffixed name");
    assert_eq!(first.product, prod_a);
    assert_eq!(second.product, prod_b);
    assert_eq!(warnings.renamed_symbols, vec!["ETH/USD".to_string()]);
}

/// A confirmed price key whose owning product has no metadata at all:
/// the report excludes it, and the key is reported as an orphan rather
/// than silently dropped.
#[test]
fn orphaned_price_key_is_reported() {
    let stray = key(9);
    let mut data = empty_data();
    data.price_accounts.insert(stray, price_account(1, 0, 1));

    let (report, warnings) = build_dashboard_data(KeyedStore::new(), data, empty_meta());
    assert_eq!(report.len(), 0);
    assert_eq!(warnings.orphaned_price_keys, vec![stray]);
    assert!(warnings.orphaned_product_keys.is_empty());
}

/// Identical snapshots render identically, row for row.
#[test]
fn identical_snapshots_render_identically() {
    let build = || {
        let prod = key(1);
        let p1 = key(2);
        let mut meta = empty_meta();
        meta.product_accounts_metadata
            .insert(prod, product_meta(&[("symbol", "SOL/USD")], &[p1, p1]));
        meta.price_accounts_metadata
            .insert(p1, PriceAccountMetadata { expo: -2 });
        let mut data = empty_data();
        data.price_accounts.insert(p1, price_account(1234, -2, 77));
        data.product_accounts.insert(
            prod,
            ProductAccount {
                account_data: ProductData { px_acc: p1, attrs: vec![] },
                price_accounts: vec![p1],
            },
        );
        build_dashboard_data(KeyedStore::new(), data, meta)
    };
    let (r1, w1) = build();
    let (r2, w2) = build();
    let rows1 = dashboard_rows(&r1);
    let rows2 = dashboard_rows(&r2);
    assert_eq!(rows1.len(), rows2.len());
    for (a, b) in rows1.iter().zip(rows2.iter()) {
        assert_eq!(a.symbol, b.symbol);
        assert_eq!(a.product, b.product);
        assert_eq!(a.price_key, b.price_key);
        assert_eq!(a.price, b.price);
        assert_eq!(a.last_publish, b.last_publish);
        assert_eq!(a.last_local_update, b.last_local_update);
    }
    // the duplicated listed key was deduplicated into one row
    assert_eq!(rows1.len(), 1);
    assert_eq!(rows1[0].price, "12.34");
    assert_eq!(w1.orphaned_price_keys, w2.orphaned_price_keys);
    assert!(w1.orphaned_price_keys.is_empty());
}

/// A product without a "symbol" attribute falls back to a name embedding
/// its key.
#[test]
fn unnamed_product_uses_key_fallback() {
    let prod = key(5);
    let mut meta = empty_meta();
    meta.product_accounts_metadata
        .insert(prod, product_meta(&[("asset_type", "Crypto")], &[]));
    let (report, _) = build_dashboard_data(KeyedStore::new(), empty_data(), meta);
    assert_eq!(report.len(), 1);
    let name = format!("unnamed product {}", bs58::encode(&prod).into_string());
    assert!(report.get(&name).is_some());
}

#[test]
fn price_formatting_is_exact() {
    assert_eq!(format_price(6450000, -2), "64500.00");
    assert_eq!(format_price(0, 5), "0.00");
    assert_eq!(format_price(7, 0), "7.00");
    assert_eq!(format_price(7, 1), "70.00");
    assert_eq!(format_price(5, -1), "0.50");
    assert_eq!(format_price(-5, -1), "-0.50");
    assert_eq!(format_price(12345, -3), "12.35");
    assert_eq!(format_price(12344, -3), "12.34");
    assert_eq!(format_price(1, -9), "0.00");
    assert_eq!(format_price(-1, -9), "-0.00");
    assert_eq!(format_price(9_223_372_036_854_775_807, 0), "9223372036854775807.00");
    assert_eq!(format_price(99, -4), "0.01");
}

#[test]
fn timestamp_cells_cover_all_three_ways() {
    assert_eq!(timestamp_cell(None), "no data");
    assert_eq!(timestamp_cell(Some(1690000000)), chrono_utc(1690000000));
    assert_eq!(timestamp_cell(Some(0)), "1970-01-01 00:00:00");
    // far out of the calendar's range: the visible marker
    assert_eq!(
        timestamp_cell(Some(i64::MIN)),
        format!("Invalid timestamp {}", i64::MIN)
    );
}

#[test]
fn decimal_and_base58_renderings_are_exact() {
    assert_eq!(i64_dec_string(0), "0");
    assert_eq!(i64_dec_string(907), "907");
    assert_eq!(i64_dec_string(-42), "-42");
    assert_eq!(i64_dec_string(i64::MIN), "-9223372036854775808");
    // all zero bytes: one '1' per byte
    assert_eq!(key_base58(&[0u8; 32]), "1".repeat(32));
    // thirty-one zero bytes then the value 1, 57 and 58
    let mut k = [0u8; 32];
    k[31] = 1;
    assert_eq!(key_base58(&k), format!("{}2", "1".repeat(31)));
    k[31] = 57;
    assert_eq!(key_base58(&k), format!("{}z", "1".repeat(31)));
    k[31] = 58;
    assert_eq!(key_base58(&k), format!("{}21", "1".repeat(31)));
}

/// Report entries come out in ascending display-name order regardless of
/// the metadata snapshot's order.
#[test]
fn report_is_ordered_by_display_name() {
    let prod_z = key(1);
    let prod_a = key(2);
    let mut meta = empty_meta();
    meta.product_accounts_metadata
        .insert(prod_z, product_meta(&[("symbol", "ZZZ/USD")], &[]));
    meta.product_accounts_metadata
        .insert(prod_a, product_meta(&[("symbol", "AAA/USD")], &[]));
    let (report, _) = build_dashboard_data(KeyedStore::new(), empty_data(), meta);
    assert_eq!(report.len(), 2);
    assert_eq!(report.name_at(0), "AAA/USD");
    assert_eq!(report.name_at(1), "ZZZ/USD");
    assert_eq!(report.view_at(0).product, prod_a);
    assert_eq!(report.view_at(1).product, prod_z);
}
