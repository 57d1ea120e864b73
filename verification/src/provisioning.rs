//! First-boot provisioning: what the setup page's web server makes of a
//! request, how it reads the SSID and the password out of a submitted form,
//! and what it stores and hands on for them.
//!
//! A request is handled as bytes. Every delimiter looked for is ASCII, and a
//! byte below 128 never lies inside a longer UTF-8 character, so searching
//! the bytes finds what searching the text would.

use vstd::prelude::*;
use vstd::slice::slice_subrange;
use vstd::string::StringSliceAdditionalSpecFns;
use vstd::utf8::{
    is_char_boundary, length_of_first_scalar, pop_first_scalar, valid_first_scalar, valid_utf8,
    valid_utf8_split,
};
use crate::bounded::{credential_text, utf8_str, Credential};
use crate::credentials::{credentials_in, prepare_record, record_of, RECORD_LEN};

verus! {

/// `&`, which parts one form field from the next.
pub const FIELD_SEPARATOR: u8 = 0x26;

/// `=`, which parts a field's key from its value.
pub const KEY_SEPARATOR: u8 = 0x3d;

/// The bytes of `POST`.
pub open spec fn post() -> Seq<u8> {
    seq![0x50u8, 0x4fu8, 0x53u8, 0x54u8]
}

/// The blank line that ends a request's head: CR LF CR LF.
pub open spec fn blank_line() -> Seq<u8> {
    seq![0x0du8, 0x0au8, 0x0du8, 0x0au8]
}

/// The bytes of `ssid`, the key of the form's SSID field.
pub open spec fn ssid_key() -> Seq<u8> {
    seq![0x73u8, 0x73u8, 0x69u8, 0x64u8]
}

/// The bytes of `pw`, the key of the form's password field.
pub open spec fn password_key() -> Seq<u8> {
    seq![0x70u8, 0x77u8]
}

/// The least index from `from` on at which `s` holds `byte`, or `s.len()`
/// where it holds none.
pub open spec fn find_byte(s: Seq<u8>, byte: u8, from: int) -> int
    decreases s.len() - from,
{
    if from >= s.len() {
        s.len() as int
    } else if s[from] == byte {
        from
    } else {
        find_byte(s, byte, from + 1)
    }
}

/// Whether `pattern` stands in `s` at index `at`.
pub open spec fn occurs_at(s: Seq<u8>, pattern: Seq<u8>, at: int) -> bool {
    0 <= at && at + pattern.len() <= s.len() && s.subrange(at, at + pattern.len()) == pattern
}

/// The least index from `from` on at which `pattern` stands in `s`, or
/// `s.len()` where it stands nowhere.
pub open spec fn find_pattern(s: Seq<u8>, pattern: Seq<u8>, from: int) -> int
    decreases s.len() - from,
{
    if from >= s.len() {
        s.len() as int
    } else if occurs_at(s, pattern, from) {
        from
    } else {
        find_pattern(s, pattern, from + 1)
    }
}

/// The value of one `key=value` pair if its key is `key`: what follows the
/// first `=`, where what precedes it is `key`.
pub open spec fn pair_value(pair: Seq<u8>, key: Seq<u8>) -> Option<Seq<u8>> {
    let eq = find_byte(pair, KEY_SEPARATOR, 0);
    if eq < pair.len() && pair.take(eq) == key {
        Some(pair.skip(eq + 1))
    } else {
        None
    }
}

/// The value of the first pair with key `key` among the pairs of `body`
/// that begin at `start` or later; pairs are parted by `&`.
pub open spec fn form_value_from(body: Seq<u8>, key: Seq<u8>, start: int) -> Option<Seq<u8>>
    recommends
        0 <= start <= body.len(),
    decreases body.len() - start,
{
    let end = find_byte(body, FIELD_SEPARATOR, start);
    match pair_value(body.subrange(start, end), key) {
        Some(value) => Some(value),
        None => if start <= end < body.len() {
            form_value_from(body, key, end + 1)
        } else {
            None
        },
    }
}

/// The value that a form body gives to `key`: that of the first pair whose
/// key is `key`.
pub open spec fn form_value(body: Seq<u8>, key: Seq<u8>) -> Option<Seq<u8>> {
    form_value_from(body, key, 0)
}

/// `find_byte` answers within `from..=s.len()`, with the byte at the index
/// it gives and at no index before it.
pub proof fn lemma_find_byte(s: Seq<u8>, byte: u8, from: int)
    requires
        0 <= from <= s.len(),
    ensures
        from <= find_byte(s, byte, from) <= s.len(),
        find_byte(s, byte, from) < s.len() ==> s[find_byte(s, byte, from)] == byte,
        forall|i: int| from <= i < find_byte(s, byte, from) ==> s[i] != byte,
    decreases s.len() - from,
{
    if from < s.len() && s[from] != byte {
        lemma_find_byte(s, byte, from + 1);
    }
}

/// `find_pattern` answers within `from..=s.len()`, with the pattern at the
/// index it gives and at no index before it.
pub proof fn lemma_find_pattern(s: Seq<u8>, pattern: Seq<u8>, from: int)
    requires
        0 <= from <= s.len(),
    ensures
        from <= find_pattern(s, pattern, from) <= s.len(),
        find_pattern(s, pattern, from) < s.len() ==> occurs_at(
            s,
            pattern,
            find_pattern(s, pattern, from),
        ),
        forall|i: int| from <= i < find_pattern(s, pattern, from) ==> !occurs_at(s, pattern, i),
    decreases s.len() - from,
{
    if from < s.len() && !occurs_at(s, pattern, from) {
        lemma_find_pattern(s, pattern, from + 1);
    }
}

/// Whether `a..b` is a range of `s` that begins at the start of `s` or
/// behind an ASCII byte, and ends at the end of `s` or before an ASCII byte.
pub open spec fn ascii_bounded(s: Seq<u8>, a: int, b: int) -> bool {
    &&& 0 <= a <= b <= s.len()
    &&& (a == 0 || s[a - 1] < 0x80)
    &&& (b == s.len() || s[b] < 0x80)
}

/// In UTF-8, an ASCII byte is a character of its own: a character begins
/// at it, and one begins behind it.
proof fn lemma_ascii_is_boundary(s: Seq<u8>, i: int)
    requires
        valid_utf8(s),
        0 <= i < s.len(),
        s[i] < 0x80,
    ensures
        is_char_boundary(s, i),
        is_char_boundary(s, i + 1),
    decreases s.len(),
{
    let width = length_of_first_scalar(s);
    let rest = pop_first_scalar(s);
    if i == 0 {
        assert(is_char_boundary(rest, 0));
    } else if i < width {
        // Inside the first character every byte but the first is a
        // continuation byte, and those are not ASCII.
        assert(s[i] >= 0x80);
    } else {
        lemma_ascii_is_boundary(rest, i - width);
    }
}

/// The end of UTF-8 text is the end of a character.
proof fn lemma_end_is_boundary(s: Seq<u8>)
    requires
        valid_utf8(s),
    ensures
        is_char_boundary(s, s.len() as int),
    decreases s.len(),
{
    if s.len() > 0 {
        lemma_end_is_boundary(pop_first_scalar(s));
    }
}

/// A stretch of UTF-8 text between ASCII bytes is UTF-8 text: no ASCII byte
/// lies inside a longer character.
pub proof fn lemma_ascii_bounded_is_text(s: Seq<u8>, a: int, b: int)
    requires
        valid_utf8(s),
        ascii_bounded(s, a, b),
    ensures
        valid_utf8(s.subrange(a, b)),
{
    if a > 0 {
        lemma_ascii_is_boundary(s, a - 1);
    }
    valid_utf8_split(s, a);
    let tail = s.subrange(a, s.len() as int);
    if b == s.len() {
        lemma_end_is_boundary(tail);
    } else {
        lemma_ascii_is_boundary(tail, b - a);
    }
    valid_utf8_split(tail, b - a);
    assert(tail.subrange(0, b - a) =~= s.subrange(a, b));
}

/// A value found in a form body that is UTF-8 text is UTF-8 text.
pub proof fn lemma_form_value_is_text(body: Seq<u8>, key: Seq<u8>, start: int)
    requires
        valid_utf8(body),
        0 <= start <= body.len(),
        form_value_from(body, key, start) is Some,
    ensures
        valid_utf8(form_value_from(body, key, start).unwrap()),
    decreases body.len() - start,
{
    let end = find_byte(body, FIELD_SEPARATOR, start);
    lemma_find_byte(body, FIELD_SEPARATOR, start);
    let pair = body.subrange(start, end);
    if pair_value(pair, key) is Some {
        let eq = find_byte(pair, KEY_SEPARATOR, 0);
        lemma_find_byte(pair, KEY_SEPARATOR, 0);
        assert(pair.skip(eq + 1) =~= body.subrange(start + eq + 1, end));
        lemma_ascii_bounded_is_text(body, start + eq + 1, end);
    } else {
        lemma_form_value_is_text(body, key, end + 1);
    }
}

/// What a search handed out, as a sequence.
pub open spec fn found(value: Option<&[u8]>) -> Option<Seq<u8>> {
    match value {
        Some(bytes) => Some(bytes@),
        None => None,
    }
}

/// Finds `byte` in `s` from `from` on.
fn index_of_byte(s: &[u8], byte: u8, from: usize) -> (at: usize)
    requires
        from <= s@.len(),
    ensures
        at == find_byte(s@, byte, from as int),
        from <= at <= s@.len(),
{
    let mut i = from;
    while i < s.len() && s[i] != byte
        invariant
            from <= i <= s@.len(),
            find_byte(s@, byte, from as int) == find_byte(s@, byte, i as int),
        decreases s@.len() - i,
    {
        i += 1;
    }
    i
}

/// Whether `pattern` stands in `s` at index `at`.
fn has_at(s: &[u8], pattern: &[u8], at: usize) -> (found: bool)
    requires
        at <= s@.len(),
    ensures
        found == occurs_at(s@, pattern@, at as int),
{
    if pattern.len() > s.len() - at {
        return false;
    }
    let mut k: usize = 0;
    while k < pattern.len()
        invariant
            at + pattern@.len() <= s@.len() <= usize::MAX,
            k <= pattern@.len(),
            forall|m: int| 0 <= m < k ==> s@[at + m] == pattern@[m],
        decreases pattern@.len() - k,
    {
        if s[at + k] != pattern[k] {
            return false;
        }
        k += 1;
    }
    assert(s@.subrange(at as int, at + pattern@.len()) =~= pattern@);
    true
}

/// Finds `pattern` in `s` from `from` on.
fn index_of_pattern(s: &[u8], pattern: &[u8], from: usize) -> (at: usize)
    requires
        from <= s@.len(),
    ensures
        at == find_pattern(s@, pattern@, from as int),
        from <= at <= s@.len(),
{
    let mut i = from;
    while i < s.len()
        invariant
            from <= i <= s@.len(),
            find_pattern(s@, pattern@, from as int) == find_pattern(s@, pattern@, i as int),
        decreases s@.len() - i,
    {
        if has_at(s, pattern, i) {
            return i;
        }
        i += 1;
    }
    i
}

/// The value of one pair if its key is `key`.
fn value_of_pair<'a>(pair: &'a [u8], key: &[u8]) -> (value: Option<&'a [u8]>)
    ensures
        found(value) == pair_value(pair@, key@),
{
    let eq = index_of_byte(pair, KEY_SEPARATOR, 0);
    if eq < pair.len() && eq == key.len() && has_at(pair, key, 0) {
        Some(slice_subrange(pair, eq + 1, pair.len()))
    } else {
        None
    }
}

/// Looks `key` up in a form body of `key=value` pairs parted by `&`, and
/// returns the value of the first pair whose key is `key`. A pair without
/// `=` has no key. Nothing is unescaped.
pub fn find_form_value<'a>(body: &'a [u8], key: &[u8]) -> (value: Option<&'a [u8]>)
    ensures
        found(value) == form_value(body@, key@),
{
    let mut start: usize = 0;
    loop
        invariant
            start <= body@.len(),
            form_value(body@, key@) == form_value_from(body@, key@, start as int),
        decreases body@.len() - start,
    {
        let end = index_of_byte(body, FIELD_SEPARATOR, start);
        let pair = slice_subrange(body, start, end);
        match value_of_pair(pair, key) {
            Some(value) => {
                return Some(value);
            },
            None => {},
        }
        if end >= body.len() {
            return None;
        }
        start = end + 1;
    }
}

/// What a request to the setup page asks for.
#[derive(Debug, PartialEq, Eq)]
pub enum SetupRequest {
    /// Anything but a `POST`: the form page is to be sent.
    ShowForm,
    /// A `POST` whose body names both fields: `record` is to be written to
    /// flash and the success page sent. `ssid` and `password` are the
    /// credentials as `record` holds them, to be used from then on.
    Submit { record: [u8; RECORD_LEN], ssid: Credential, password: Credential },
    /// A `POST` without a body, without one of the fields, or with a field
    /// that a record cannot hold as text: nothing is stored or sent.
    Incomplete,
}

/// What a `SetupRequest` holds: the record as bytes, the credentials as
/// text.
pub enum SetupRequestView {
    ShowForm,
    Submit { record: Seq<u8>, ssid: Seq<char>, password: Seq<char> },
    Incomplete,
}

impl View for SetupRequest {
    type V = SetupRequestView;

    open spec fn view(&self) -> SetupRequestView {
        match *self {
            SetupRequest::ShowForm => SetupRequestView::ShowForm,
            SetupRequest::Submit { record, ssid, password } => SetupRequestView::Submit {
                record: record@,
                ssid: credential_text(ssid),
                password: credential_text(password),
            },
            SetupRequest::Incomplete => SetupRequestView::Incomplete,
        }
    }
}

/// What a submitted form leads to: the record for its two fields, with the
/// credentials that the record holds. A field of more than 63 bytes is cut;
/// where the cut leaves no text, nothing is stored.
pub open spec fn submission(ssid: Seq<u8>, password: Seq<u8>) -> SetupRequestView {
    match credentials_in(record_of(ssid, password)) {
        Some((ssid_text, password_text)) => SetupRequestView::Submit {
            record: record_of(ssid, password),
            ssid: ssid_text,
            password: password_text,
        },
        None => SetupRequestView::Incomplete,
    }
}

/// What a request asks for. A request that is not UTF-8 counts as empty.
/// The body of a `POST` is what follows the first blank line.
pub open spec fn request_kind(request: Seq<u8>) -> SetupRequestView {
    if !valid_utf8(request) || !occurs_at(request, post(), 0) {
        SetupRequestView::ShowForm
    } else {
        let head_end = find_pattern(request, blank_line(), 0);
        if head_end >= request.len() {
            SetupRequestView::Incomplete
        } else {
            let body = request.skip(head_end + 4);
            match (form_value(body, ssid_key()), form_value(body, password_key())) {
                (Some(ssid), Some(password)) => submission(ssid, password),
                _ => SetupRequestView::Incomplete,
            }
        }
    }
}

/// Decides what a request to the setup page asks for. For a submitted
/// form it builds the record to write, and hands out the credentials as
/// that record holds them: what is used is what a later read finds.
pub fn classify_request(request: &[u8]) -> (kind: SetupRequest)
    ensures
        kind@ == request_kind(request@),
{
    let method: [u8; 4] = [0x50, 0x4f, 0x53, 0x54];
    let separator: [u8; 4] = [0x0d, 0x0a, 0x0d, 0x0a];
    let ssid_name: [u8; 4] = [0x73, 0x73, 0x69, 0x64];
    let password_name: [u8; 2] = [0x70, 0x77];
    if utf8_str(request).is_none() || !has_at(request, method.as_slice(), 0) {
        return SetupRequest::ShowForm;
    }
    let head_end = index_of_pattern(request, separator.as_slice(), 0);
    if head_end >= request.len() {
        return SetupRequest::Incomplete;
    }
    proof {
        lemma_find_pattern(request@, blank_line(), 0);
    }
    let body = slice_subrange(request, head_end + 4, request.len());
    proof {
        // The body lies behind the line feed that ends the blank line, and
        // each value between `=` and `&` or the end: all of them are text.
        let blank = request@.subrange(head_end as int, head_end + 4);
        assert(request@[head_end + 3] == blank[3]);
        lemma_ascii_bounded_is_text(request@, head_end + 4, request@.len() as int);
        if form_value(body@, ssid_key()) is Some {
            lemma_form_value_is_text(body@, ssid_key(), 0);
        }
        if form_value(body@, password_key()) is Some {
            lemma_form_value_is_text(body@, password_key(), 0);
        }
    }
    let ssid = find_form_value(body, ssid_name.as_slice());
    let password = find_form_value(body, password_name.as_slice());
    match (ssid, password) {
        (Some(ssid), Some(password)) => match (utf8_str(ssid), utf8_str(password)) {
            (Some(ssid), Some(password)) => match prepare_record(ssid, password) {
                (record, Some((ssid, password))) => SetupRequest::Submit {
                    record,
                    ssid,
                    password,
                },
                (_, None) => SetupRequest::Incomplete,
            },
            _ => {
                assert(false);  // both values are UTF-8
                SetupRequest::Incomplete
            },
        },
        _ => SetupRequest::Incomplete,
    }
}

} // verus!
