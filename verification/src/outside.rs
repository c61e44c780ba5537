//! What the library takes from other crates and from parts of std that carry
//! no specification: each item here is believed as it stands.
use dashmap::DashMap;
use rand::Rng;
use sha2::{Digest, Sha256};
use vstd::prelude::*;

verus! {

/// The SHA-256 digest of `data`, as `sha2` computes it.
pub uninterp spec fn sha256_digest(data: Seq<u8>) -> Seq<u8>;

/// `sha2::Sha256`, fed once and finalized: the digest is a function of the bytes.
#[verifier::external_body]
pub(crate) fn sha256(data: &[u8]) -> (digest: [u8; 32])
    ensures
        digest@ == sha256_digest(data@),
{
    let mut hasher = Sha256::new();
    hasher.update(data);
    hasher.finalize().into()
}

/// The lower-case hexadecimal digit of a value below sixteen.
pub open spec fn hex_digit(d: u8) -> char {
    if d < 10 {
        ('0' as u8 + d) as char
    } else {
        ('a' as u8 + (d - 10)) as char
    }
}

/// Two lower-case hexadecimal digits for each byte, the high half first.
pub open spec fn hex_lower(data: Seq<u8>) -> Seq<char> {
    Seq::new(
        2 * data.len(),
        |i: int|
            if i % 2 == 0 {
                hex_digit(data[i / 2] / 16)
            } else {
                hex_digit(data[i / 2] % 16)
            },
    )
}

/// `hex::encode`: two lower-case digits for each byte, in order.
#[verifier::external_body]
pub(crate) fn hex_encode(data: &[u8]) -> (text: String)
    ensures
        text@ == hex_lower(data@),
{
    hex::encode(data)
}

/// `rand::Rng::gen_range` on the thread's generator, over `min..=max`: some
/// number of that range. It panics on an empty range.
#[verifier::external_body]
pub(crate) fn draw(min: usize, max: usize) -> (n: usize)
    requires
        min <= max,
    ensures
        min <= n <= max,
{
    rand::thread_rng().gen_range(min..=max)
}

/// What `String::from_utf8_lossy` makes of `bytes`.
pub uninterp spec fn utf8_lossy(bytes: Seq<u8>) -> Seq<char>;

/// `String::from_utf8_lossy`: bytes that are UTF-8 become the text they encode;
/// in others each part that is not becomes U+FFFD.
#[verifier::external_body]
pub(crate) fn from_utf8_lossy(bytes: &[u8]) -> (text: String)
    ensures
        text@ == utf8_lossy(bytes@),
        vstd::utf8::valid_utf8(bytes@) ==> text@ == vstd::utf8::decode_utf8(bytes@),
{
    String::from_utf8_lossy(bytes).into_owned()
}

/// What `str::to_lowercase` makes of `s`.
pub uninterp spec fn lowercase(s: Seq<char>) -> Seq<char>;

/// The lower-case form of an ASCII character.
pub open spec fn ascii_lower(c: char) -> char {
    if 'A' <= c <= 'Z' {
        (c as u8 + 32) as char
    } else {
        c
    }
}

/// The lower-case form of an ASCII text.
pub open spec fn ascii_lowercase(s: Seq<char>) -> Seq<char> {
    s.map_values(|c: char| ascii_lower(c))
}

/// `str::to_lowercase`: the Unicode lower-case form is a function of the text; of
/// an ASCII text it changes the letters `A` to `Z` alone.
#[verifier::external_body]
pub(crate) fn to_lowercase(s: &str) -> (lower: String)
    ensures
        lower@ == lowercase(s@),
        vstd::utf8::is_ascii_chars(s@) ==> lower@ == ascii_lowercase(s@),
{
    s.to_lowercase()
}

/// Whether `rustls` takes `name` for a server name.
pub uninterp spec fn server_name_valid(name: Seq<char>) -> bool;

/// `rustls::pki_types::ServerName::try_from`: whether a text is a DNS name or
/// an IP address depends on the text alone.
#[verifier::external_body]
pub(crate) fn is_server_name(name: &str) -> (ok: bool)
    ensures
        ok == server_name_valid(name@),
{
    rustls::pki_types::ServerName::try_from(name).is_ok()
}

/// The certificates that `rustls_pemfile` finds in a PEM file, in their DER form;
/// nothing where it cannot read one of the sections.
pub uninterp spec fn pem_certificates(pem: Seq<u8>) -> Option<Seq<Seq<u8>>>;

/// `rustls_pemfile::certs` on bytes in memory, up to the first error: what it
/// finds is a function of the bytes. Sections that hold no certificate are
/// passed over.
#[verifier::external_body]
pub(crate) fn pem_certs(pem: &[u8]) -> (certs: Option<Vec<Vec<u8>>>)
    ensures
        match certs {
            Some(found) => pem_certificates(pem@) == Some(
                found@.map_values(|cert: Vec<u8>| cert@),
            ),
            None => pem_certificates(pem@) is None,
        },
{
    let mut reader: &[u8] = pem;
    rustls_pemfile::certs(&mut reader).map(|cert| cert.map(|der| der.to_vec()).ok()).collect()
}

/// Why `rustls` does not take a certificate for a trust anchor, in its own words.
pub uninterp spec fn anchor_refusal(der: Seq<u8>) -> Option<Seq<char>>;

/// `rustls::RootCertStore::add`: whether a certificate can be trusted depends on
/// its bytes alone, and so does the error.
#[verifier::external_body]
pub(crate) fn anchor_refused(der: &[u8]) -> (reason: Option<String>)
    ensures
        match reason {
            Some(text) => anchor_refusal(der@) == Some(text@),
            None => anchor_refusal(der@) is None,
        },
{
    let cert = rustls::pki_types::CertificateDer::from(der);
    rustls::RootCertStore::empty().add(cert).err().map(|e| e.to_string())
}

/// `dashmap::DashMap`. It changes behind a shared reference; here every call
/// that changes one takes it by `&mut`, so that its contents are a function of it.
#[verifier::external_type_specification]
#[verifier::external_body]
#[verifier::reject_recursive_types(K)]
#[verifier::reject_recursive_types(V)]
#[verifier::reject_recursive_types(S)]
pub struct ExDashMap<K, V, S>(DashMap<K, V, S>);

/// What a table of streams holds: for each stream id the number of its event sender.
pub uninterp spec fn table_contents(table: DashMap<u32, u64>) -> Map<u32, u64>;

/// `DashMap::new`: an empty table.
#[verifier::external_body]
pub(crate) fn table_new() -> (table: DashMap<u32, u64>)
    ensures
        table_contents(table).dom() == Set::<u32>::empty(),
{
    DashMap::new()
}

/// `DashMap::insert`: the key now has the value; the value it had before is returned.
#[verifier::external_body]
pub(crate) fn table_insert(table: &mut DashMap<u32, u64>, key: u32, value: u64) -> (previous:
    Option<u64>)
    ensures
        table_contents(*final(table)) == table_contents(*old(table)).insert(key, value),
        previous == (if table_contents(*old(table)).dom().contains(key) {
            Some(table_contents(*old(table))[key])
        } else {
            None
        }),
{
    table.insert(key, value)
}

/// `DashMap::remove`: the key is gone; the value it had is returned.
#[verifier::external_body]
pub(crate) fn table_remove(table: &mut DashMap<u32, u64>, key: u32) -> (previous: Option<u64>)
    ensures
        table_contents(*final(table)) == table_contents(*old(table)).remove(key),
        previous == (if table_contents(*old(table)).dom().contains(key) {
            Some(table_contents(*old(table))[key])
        } else {
            None
        }),
{
    table.remove(&key).map(|entry| entry.1)
}

/// `DashMap::get`: the value of the key, if it has one.
#[verifier::external_body]
pub(crate) fn table_get(table: &DashMap<u32, u64>, key: u32) -> (value: Option<u64>)
    ensures
        value == (if table_contents(*table).dom().contains(key) {
            Some(table_contents(*table)[key])
        } else {
            None
        }),
{
    table.get(&key).map(|entry| *entry)
}

/// The entries of a table, each once, in some order.
pub open spec fn lists_entries(entries: Seq<(u32, u64)>, contents: Map<u32, u64>) -> bool {
    &&& forall|i: int|
        0 <= i < entries.len() ==> contents.dom().contains((#[trigger] entries[i]).0)
            && contents[entries[i].0] == entries[i].1
    &&& forall|i: int, j: int|
        0 <= i < entries.len() && 0 <= j < entries.len() && i != j ==> (#[trigger] entries[i]).0
            != (#[trigger] entries[j]).0
    &&& forall|key: u32| #[trigger]
        contents.dom().contains(key) ==> exists|i: int|
            0 <= i < entries.len() && (#[trigger] entries[i]).0 == key
}

/// `DashMap::iter`: every entry once. The order is that of the shards and their
/// hash tables and is left open.
#[verifier::external_body]
pub(crate) fn table_entries(table: &DashMap<u32, u64>) -> (entries: Vec<(u32, u64)>)
    ensures
        lists_entries(entries@, table_contents(*table)),
{
    table.iter().map(|entry| (*entry.key(), *entry.value())).collect()
}

/// Two characters for each byte: its high half and its low half, as digits from
/// `0` to `9` and letters from `a` to `f`.
pub proof fn law_hex_text(data: Seq<u8>, i: int)
    requires
        0 <= i < data.len(),
    ensures
        hex_lower(data).len() == 2 * data.len(),
        ({
            let high = data[i] as int / 16;
            let low = data[i] as int % 16;
            &&& hex_lower(data)[2 * i] as int == (if high < 10 {
                0x30 + high
            } else {
                0x57 + high
            })
            &&& hex_lower(data)[2 * i + 1] as int == (if low < 10 {
                0x30 + low
            } else {
                0x57 + low
            })
        }),
{
}

} // verus!
