use vstd::prelude::*;
use crate::accounts::{MappingAccount, MappingView, PriceAccount, ProductData, ProductDataView};

verus! {

/// Why raw account bytes failed to decode, mirroring the decoder's own
/// distinctions: bad layout or magic number, wrong on-chain format version,
/// or an account of another type than the one asked for.
#[derive(Clone, Copy, Debug, PartialEq, Eq, Structural)]
pub enum DecodeError {
    InvalidAccountData,
    BadVersionNumber,
    WrongAccountType,
}

/// What mapping-account decoding yields on given bytes.  The decoder is a
/// pure function of the bytes; its layout is not restated here.
pub uninterp spec fn mapping_decode_of(b: Seq<u8>) -> Result<MappingView, DecodeError>;

/// What product-account decoding yields on given bytes.
pub uninterp spec fn product_decode_of(b: Seq<u8>) -> Result<ProductDataView, DecodeError>;

/// What price-account decoding yields on given bytes.
pub uninterp spec fn price_decode_of(b: Seq<u8>) -> Result<PriceAccount, DecodeError>;

/// Relies on pyth_sdk_solana::state::load_mapping_account, a pure
/// function of the raw bytes; Pubkey::to_bytes carries the keys over.
/// The loader aborts on a misaligned input slice, so the bytes are first
/// copied into an aligned buffer.
#[verifier::external_body]
pub fn decode_mapping_account(b: &[u8]) -> (r: Result<MappingAccount, DecodeError>)
    ensures
        r matches Ok(m) ==> (mapping_decode_of(b@) matches Ok(v) && v == m@),
        r matches Err(e) ==> (mapping_decode_of(b@) matches Err(e2) && e2 == e),
{
    let mut buf: Vec<u128> = vec![0u128; (b.len() + 15) / 16];
    bytemuck::cast_slice_mut::<u128, u8>(&mut buf)[..b.len()].copy_from_slice(b);
    match pyth_sdk_solana::state::load_mapping_account(&bytemuck::cast_slice(&buf)[..b.len()]) {
        Ok(m) => Ok(MappingAccount {
            num: m.num,
            next: m.next.to_bytes(),
            products: m.products.iter().map(|p| p.to_bytes()).collect(),
        }),
        Err(pyth_sdk_solana::PythError::InvalidAccountData) => Err(DecodeError::InvalidAccountData),
        Err(pyth_sdk_solana::PythError::BadVersionNumber) => Err(DecodeError::BadVersionNumber),
        Err(pyth_sdk_solana::PythError::WrongAccountType) => Err(DecodeError::WrongAccountType),
    }
}

/// Relies on pyth_sdk_solana::state::load_product_account and on
/// ProductAccount::iter for the attribute pairs: both decode the raw
/// bytes alone, so the result is a pure function of them.  The loader
/// aborts on a misaligned input slice, so the bytes are first copied
/// into an aligned buffer.
#[verifier::external_body]
pub fn decode_product_account(b: &[u8]) -> (r: Result<ProductData, DecodeError>)
    ensures
        r matches Ok(p) ==> (product_decode_of(b@) matches Ok(v) && v == p@),
        r matches Err(e) ==> (product_decode_of(b@) matches Err(e2) && e2 == e),
{
    let mut buf: Vec<u128> = vec![0u128; (b.len() + 15) / 16];
    bytemuck::cast_slice_mut::<u128, u8>(&mut buf)[..b.len()].copy_from_slice(b);
    match pyth_sdk_solana::state::load_product_account(&bytemuck::cast_slice(&buf)[..b.len()]) {
        Ok(p) => Ok(ProductData {
            px_acc: p.px_acc.to_bytes(),
            attrs: p.iter().map(|(k, v)| (k.to_string(), v.to_string())).collect(),
        }),
        Err(pyth_sdk_solana::PythError::InvalidAccountData) => Err(DecodeError::InvalidAccountData),
        Err(pyth_sdk_solana::PythError::BadVersionNumber) => Err(DecodeError::BadVersionNumber),
        Err(pyth_sdk_solana::PythError::WrongAccountType) => Err(DecodeError::WrongAccountType),
    }
}

/// Relies on pyth_sdk_solana::state::load_price_account: it decodes a
/// price account from raw bytes, a pure function of the bytes alone.
/// The loader aborts on a misaligned input slice, so the bytes are first
/// copied into an aligned buffer.
#[verifier::external_body]
pub fn decode_price_account(b: &[u8]) -> (r: Result<PriceAccount, DecodeError>)
    ensures
        r matches Ok(p) ==> (price_decode_of(b@) matches Ok(v) && v == p),
        r matches Err(e) ==> (price_decode_of(b@) matches Err(e2) && e2 == e),
{
    let mut buf: Vec<u128> = vec![0u128; (b.len() + 15) / 16];
    bytemuck::cast_slice_mut::<u128, u8>(&mut buf)[..b.len()].copy_from_slice(b);
    let aligned = &bytemuck::cast_slice::<u128, u8>(&buf)[..b.len()];
    match pyth_sdk_solana::state::load_price_account::<32, ()>(aligned) {
        Ok(p) => Ok(PriceAccount {
            price: p.agg.price, conf: p.agg.conf, expo: p.expo,
            timestamp: p.timestamp, next: p.next.to_bytes(),
        }),
        Err(pyth_sdk_solana::PythError::InvalidAccountData) => Err(DecodeError::InvalidAccountData),
        Err(pyth_sdk_solana::PythError::BadVersionNumber) => Err(DecodeError::BadVersionNumber),
        Err(pyth_sdk_solana::PythError::WrongAccountType) => Err(DecodeError::WrongAccountType),
    }
}

} // verus!
