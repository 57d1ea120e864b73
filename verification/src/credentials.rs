//! The stored WiFi credential record: 256 bytes that begin with a magic
//! marker and hold an SSID and a password, each as a length byte followed by
//! up to 63 bytes of text.

use vstd::prelude::*;
use vstd::slice::slice_subrange;
use vstd::string::StringSliceAdditionalSpecFns;
use vstd::utf8::{
    decode_utf8, decode_utf8_encode_utf8, encode_utf8, encode_utf8_decode_utf8,
    encode_utf8_valid_utf8, valid_utf8,
};
use crate::bounded::{credential_from_str, credential_text, utf8_str, Credential};

verus! {

/// Length of the record.
pub const RECORD_LEN: usize = 256;

/// Where the record lies in flash: the last sector of a 2 MiB chip.
pub const FLASH_OFFSET: u32 = 2 * 1024 * 1024 - 4096;

/// Length of the flash sector that holds the record.
pub const FLASH_SECTOR_LEN: u32 = 4096;

/// Length of the marker that opens a record.
pub const MAGIC_LEN: usize = 8;

/// Offset of the SSID's length byte; the SSID follows it.
pub const SSID_AT: usize = 8;

/// Offset of the password's length byte; the password follows it.
pub const PASSWORD_AT: usize = 72;

/// The most bytes of an SSID or a password that a record stores.
pub const MAX_STORED_LEN: usize = 63;

/// The marker that opens a record: the bytes of `WIFICRED`.
pub open spec fn magic() -> Seq<u8> {
    seq![0x57u8, 0x49u8, 0x46u8, 0x49u8, 0x43u8, 0x52u8, 0x45u8, 0x44u8]
}

/// What a record stores of `field`: its first 63 bytes.
pub open spec fn stored(field: Seq<u8>) -> Seq<u8> {
    if field.len() <= MAX_STORED_LEN {
        field
    } else {
        field.take(MAX_STORED_LEN as int)
    }
}

/// The record that holds `ssid` and `password`: the marker, each field as
/// its length and its stored bytes, and zero everywhere else.
pub open spec fn record_of(ssid: Seq<u8>, password: Seq<u8>) -> Seq<u8> {
    Seq::new(
        RECORD_LEN as nat,
        |i: int|
            if i < MAGIC_LEN {
                magic()[i]
            } else if i == SSID_AT {
                stored(ssid).len() as u8
            } else if SSID_AT < i <= SSID_AT + stored(ssid).len() {
                ssid[i - SSID_AT - 1]
            } else if i == PASSWORD_AT {
                stored(password).len() as u8
            } else if PASSWORD_AT < i <= PASSWORD_AT + stored(password).len() {
                password[i - PASSWORD_AT - 1]
            } else {
                0u8
            },
    )
}

/// The bytes of the field whose length byte is at `at`.
pub open spec fn field_bytes(record: Seq<u8>, at: int) -> Seq<u8> {
    record.subrange(at + 1, at + 1 + record[at])
}

/// The text of the field whose length byte is at `at`: none if the length
/// is over 63 or the bytes are not UTF-8.
pub open spec fn field_at(record: Seq<u8>, at: int) -> Option<Seq<char>> {
    if record[at] <= MAX_STORED_LEN && valid_utf8(field_bytes(record, at)) {
        Some(decode_utf8(field_bytes(record, at)))
    } else {
        None
    }
}

/// The SSID and the password that a record holds: none unless the record
/// opens with the marker and both fields hold text.
pub open spec fn credentials_in(record: Seq<u8>) -> Option<(Seq<char>, Seq<char>)>
    recommends
        record.len() == RECORD_LEN,
{
    if record.subrange(0, MAGIC_LEN as int) != magic() {
        None
    } else {
        match (field_at(record, SSID_AT as int), field_at(record, PASSWORD_AT as int)) {
            (Some(ssid), Some(password)) => Some((ssid, password)),
            _ => None,
        }
    }
}

/// The characters of a credential that may be missing.
pub open spec fn text_of(field: Option<Credential>) -> Option<Seq<char>> {
    match field {
        Some(credential) => Some(credential_text(credential)),
        None => None,
    }
}

/// The characters of an SSID and a password that may be missing.
pub open spec fn texts_of(credentials: Option<(Credential, Credential)>) -> Option<
    (Seq<char>, Seq<char>),
> {
    match credentials {
        Some((ssid, password)) => Some((credential_text(ssid), credential_text(password))),
        None => None,
    }
}

/// Builds the record that holds `ssid` and `password`. Of a field longer
/// than 63 bytes of UTF-8 only the first 63 bytes are stored.
pub fn encode_credentials(ssid: &str, password: &str) -> (record: [u8; RECORD_LEN])
    ensures
        record@ == record_of(ssid.spec_bytes(), password.spec_bytes()),
{
    let ssid = ssid.as_bytes();
    let password = password.as_bytes();
    let mut record = [0u8; RECORD_LEN];
    record[0] = 0x57;
    record[1] = 0x49;
    record[2] = 0x46;
    record[3] = 0x49;
    record[4] = 0x43;
    record[5] = 0x52;
    record[6] = 0x45;
    record[7] = 0x44;
    let ssid_len = if ssid.len() <= MAX_STORED_LEN {
        ssid.len()
    } else {
        MAX_STORED_LEN
    };
    let password_len = if password.len() <= MAX_STORED_LEN {
        password.len()
    } else {
        MAX_STORED_LEN
    };
    record[SSID_AT] = ssid_len as u8;
    record[PASSWORD_AT] = password_len as u8;
    let ghost header = record@;
    let mut i: usize = 0;
    while i < ssid_len
        invariant
            i <= ssid_len == stored(ssid@).len() <= MAX_STORED_LEN,
            ssid_len <= ssid@.len(),
            forall|k: int|
                0 <= k < RECORD_LEN ==> #[trigger] record@[k] == (if SSID_AT < k <= SSID_AT + i {
                    ssid@[k - SSID_AT - 1]
                } else {
                    header[k]
                }),
        decreases ssid_len - i,
    {
        record[SSID_AT + 1 + i] = ssid[i];
        i += 1;
    }
    let ghost half = record@;
    let mut j: usize = 0;
    while j < password_len
        invariant
            j <= password_len == stored(password@).len() <= MAX_STORED_LEN,
            password_len <= password@.len(),
            forall|k: int|
                0 <= k < RECORD_LEN ==> #[trigger] record@[k] == (if PASSWORD_AT < k <= PASSWORD_AT
                    + j {
                    password@[k - PASSWORD_AT - 1]
                } else {
                    half[k]
                }),
        decreases password_len - j,
    {
        record[PASSWORD_AT + 1 + j] = password[j];
        j += 1;
    }
    record
}

/// Reads the field whose length byte is at `at`.
fn read_field(record: &[u8; RECORD_LEN], at: usize) -> (field: Option<Credential>)
    requires
        at + 1 + MAX_STORED_LEN <= RECORD_LEN,
    ensures
        text_of(field) == field_at(record@, at as int),
{
    let len = record[at] as usize;
    if len > MAX_STORED_LEN {
        return None;
    }
    let bytes = slice_subrange(record.as_slice(), at + 1, at + 1 + len);
    match utf8_str(bytes) {
        None => None,
        Some(text) => {
            proof {
                encode_utf8_decode_utf8(text@);
            }
            match credential_from_str(text) {
                Ok(field) => Some(field),
                Err(_) => None,
            }
        },
    }
}

/// Reads the SSID and the password out of a record. Gives `None` for a
/// record that does not open with the marker, and for one with a field whose
/// length byte is over 63 or whose bytes are not UTF-8.
pub fn decode_credentials(record: &[u8; RECORD_LEN]) -> (credentials: Option<
    (Credential, Credential),
>)
    ensures
        texts_of(credentials) == credentials_in(record@),
{
    let marked = record[0] == 0x57 && record[1] == 0x49 && record[2] == 0x46 && record[3] == 0x49
        && record[4] == 0x43 && record[5] == 0x52 && record[6] == 0x45 && record[7] == 0x44;
    if !marked {
        assert(record@.subrange(0, MAGIC_LEN as int) != magic()) by {
            // One of the first eight bytes is not the marker's.
            let head = record@.subrange(0, MAGIC_LEN as int);
            assert(head[0] != 0x57 || head[1] != 0x49 || head[2] != 0x46 || head[3] != 0x49
                || head[4] != 0x43 || head[5] != 0x52 || head[6] != 0x45 || head[7] != 0x44);
        }
        return None;
    }
    assert(record@.subrange(0, MAGIC_LEN as int) =~= magic());
    let ssid = match read_field(record, SSID_AT) {
        Some(ssid) => ssid,
        None => {
            return None;
        },
    };
    let password = match read_field(record, PASSWORD_AT) {
        Some(password) => password,
        None => {
            return None;
        },
    };
    Some((ssid, password))
}

/// Builds the record for `ssid` and `password`, and with it the credentials
/// as the record holds them: what a later read of the record gives, and so
/// what is to be used once the record is written. They are missing where
/// the record holds none, which is where a field of more than 63 bytes was
/// cut inside a character.
pub fn prepare_record(ssid: &str, password: &str) -> (prepared: (
    [u8; RECORD_LEN],
    Option<(Credential, Credential)>,
))
    ensures
        prepared.0@ == record_of(ssid.spec_bytes(), password.spec_bytes()),
        texts_of(prepared.1) == credentials_in(prepared.0@),
        texts_of(prepared.1) == (if valid_utf8(stored(ssid.spec_bytes())) && valid_utf8(
            stored(password.spec_bytes()),
        ) {
            Some(
                (
                    decode_utf8(stored(ssid.spec_bytes())),
                    decode_utf8(stored(password.spec_bytes())),
                ),
            )
        } else {
            None
        }),
{
    let record = encode_credentials(ssid, password);
    let credentials = decode_credentials(&record);
    proof {
        lemma_decode_encode(ssid.spec_bytes(), password.spec_bytes());
    }
    (record, credentials)
}

/// A record built from two fields gives back what it stored of them, as
/// text: both fields whole where each is UTF-8 of at most 63 bytes. Where a
/// field was cut in the middle of a character, or was no UTF-8 to begin
/// with, the record holds no credentials.
pub proof fn lemma_decode_encode(ssid: Seq<u8>, password: Seq<u8>)
    ensures
        credentials_in(record_of(ssid, password)) == (if valid_utf8(stored(ssid)) && valid_utf8(
            stored(password),
        ) {
            Some((decode_utf8(stored(ssid)), decode_utf8(stored(password))))
        } else {
            None
        }),
{
    let record = record_of(ssid, password);
    assert(record.subrange(0, MAGIC_LEN as int) =~= magic());
    assert(field_bytes(record, SSID_AT as int) =~= stored(ssid));
    assert(field_bytes(record, PASSWORD_AT as int) =~= stored(password));
}

/// An SSID and a password of at most 63 bytes each come back from their
/// record as they went in.
pub proof fn lemma_round_trip(ssid: Seq<char>, password: Seq<char>)
    requires
        encode_utf8(ssid).len() <= MAX_STORED_LEN,
        encode_utf8(password).len() <= MAX_STORED_LEN,
    ensures
        credentials_in(record_of(encode_utf8(ssid), encode_utf8(password))) == Some(
            (ssid, password),
        ),
{
    lemma_decode_encode(encode_utf8(ssid), encode_utf8(password));
    encode_utf8_valid_utf8(ssid);
    encode_utf8_valid_utf8(password);
    encode_utf8_decode_utf8(ssid);
    encode_utf8_decode_utf8(password);
}

/// The credentials that a record holds are no longer than 63 bytes each,
/// and the record's length bytes are the lengths of their UTF-8.
pub proof fn lemma_stored_fields_fit(record: Seq<u8>)
    requires
        record.len() == RECORD_LEN,
        credentials_in(record) is Some,
    ensures
        encode_utf8(credentials_in(record).unwrap().0).len() == record[SSID_AT as int]
            <= MAX_STORED_LEN,
        encode_utf8(credentials_in(record).unwrap().1).len() == record[PASSWORD_AT as int]
            <= MAX_STORED_LEN,
{
    decode_utf8_encode_utf8(field_bytes(record, SSID_AT as int));
    decode_utf8_encode_utf8(field_bytes(record, PASSWORD_AT as int));
}

/// A sector that was erased, and so holds `0xFF` in every byte, holds no
/// credentials.
pub proof fn lemma_erased_holds_nothing(record: Seq<u8>)
    requires
        record.len() == RECORD_LEN,
        forall|i: int| 0 <= i < record.len() ==> record[i] == 0xFF,
    ensures
        credentials_in(record) is None,
{
}

} // verus!
