use vstd::prelude::*;

verus! {

/// Byte view of an ASCII character sequence.
pub open spec fn ascii_of(s: Seq<char>) -> Seq<u8> {
    s.map_values(|c: char| c as u8)
}

/// A character that may stand unescaped inside a JSON string:
/// printable ASCII other than the quote and the backslash.
pub open spec fn plain_char(c: char) -> bool {
    0x20 <= (c as u32) && (c as u32) < 0x7f && c != '"' && c != '\\'
}

/// Byte-level counterpart of `plain_char`.
pub open spec fn plain_byte(b: u8) -> bool {
    0x20 <= b && b < 0x7f && b != 0x22 && b != 0x5c
}

/// A string that needs no escaping inside a JSON document.
pub open spec fn json_plain(s: Seq<char>) -> bool {
    forall|i: int| 0 <= i < s.len() ==> plain_char(s[i])
}

pub proof fn lemma_plain_char_byte(c: char)
    requires
        plain_char(c),
    ensures
        plain_byte(c as u8),
        ((c as u8) as char) == c,
{
}

pub proof fn lemma_plain_byte_char(b: u8)
    requires
        plain_byte(b),
    ensures
        plain_char(b as char),
        ((b as char) as u8) == b,
{
}

/// Peels the first part off a concatenation that starts at offset `q` of `v`.
pub proof fn lemma_take_prefix(v: Seq<u8>, q: int, a: Seq<u8>, rest: Seq<u8>)
    requires
        0 <= q <= v.len(),
        v.subrange(q, v.len() as int) == a + rest,
    ensures
        q + a.len() <= v.len(),
        v.subrange(q, q + a.len()) == a,
        v.subrange(q + a.len(), v.len() as int) == rest,
{
    let s = v.subrange(q, v.len() as int);
    assert(s.len() == a.len() + rest.len());
    assert forall|i: int| 0 <= i < a.len() implies v.subrange(q, q + a.len())[i] == a[i] by {
        assert(s[i] == (a + rest)[i]);
    }
    assert(v.subrange(q, q + a.len()) =~= a);
    assert forall|i: int| 0 <= i < rest.len() implies v.subrange(
        q + a.len(),
        v.len() as int,
    )[i] == rest[i] by {
        assert(s[i + a.len()] == (a + rest)[i + a.len()]);
    }
    assert(v.subrange(q + a.len(), v.len() as int) =~= rest);
}

/// Characters read off sub-0x80 bytes are ASCII, and their UTF-8 encoding is
/// exactly those bytes.
pub proof fn lemma_ascii_encode_utf8(s: Seq<char>, v: Seq<u8>)
    requires
        s.len() == v.len(),
        forall|i: int| 0 <= i < v.len() ==> v[i] < 0x80,
        forall|i: int| 0 <= i < v.len() ==> s[i] == (v[i] as char),
    ensures
        vstd::utf8::is_ascii_chars(s),
        vstd::utf8::encode_utf8(s) == v,
        ascii_of(s) == v,
{
    assert(vstd::utf8::is_ascii_chars(s)) by {
        assert forall|i: int| 0 <= i < s.len() implies '\0' <= #[trigger] s[i] <= '\u{7f}' by {
            assert(s[i] == (v[i] as char));
            assert((v[i] as char) <= '\u{7f}');
            assert('\0' <= (v[i] as char));
        }
    }
    vstd::utf8::is_ascii_chars_encode_utf8(s);
    lemma_string_from_ascii_bytes(s, v);
    assert(vstd::utf8::encode_utf8(s) =~= v);
}

pub proof fn lemma_ascii_of_plain(s: Seq<char>)
    requires
        json_plain(s),
    ensures
        forall|i: int| 0 <= i < s.len() ==> plain_byte(#[trigger] ascii_of(s)[i]),
{
    assert forall|i: int| 0 <= i < s.len() implies plain_byte(#[trigger] ascii_of(s)[i]) by {
        lemma_plain_char_byte(s[i]);
    }
}

pub proof fn lemma_ascii_of_injective(a: Seq<char>, b: Seq<char>)
    requires
        json_plain(a),
        json_plain(b),
        ascii_of(a) == ascii_of(b),
    ensures
        a == b,
{
    assert(ascii_of(a).len() == a.len());
    assert(ascii_of(b).len() == b.len());
    assert(a.len() == b.len());
    assert forall|i: int| 0 <= i < a.len() implies a[i] == b[i] by {
        assert(ascii_of(a)[i] == (a[i] as u8));
        assert(ascii_of(b)[i] == (b[i] as u8));
        lemma_plain_char_byte(a[i]);
        lemma_plain_char_byte(b[i]);
        assert(a[i] == ((a[i] as u8) as char));
        assert(b[i] == ((b[i] as u8) as char));
    }
    assert(a =~= b);
}

/// Checks that every character of `s` may stand unescaped in a JSON string,
/// and hands back the byte form.
pub fn plain_str_bytes(s: &str) -> (r: Option<Vec<u8>>)
    ensures
        r matches Some(v) ==> json_plain(s@) && v@ == ascii_of(s@),
        r is None ==> !json_plain(s@),
{
    let n = s.unicode_len();
    let mut out: Vec<u8> = Vec::new();
    let mut i: usize = 0;
    while i < n
        invariant
            0 <= i <= n,
            n == s@.len(),
            forall|k: int| 0 <= k < i ==> plain_char(s@[k]),
            out@ == ascii_of(s@.take(i as int)),
        decreases n - i,
    {
        let c = s.get_char(i);
        let code = c as u32;
        if !(0x20 <= code && code < 0x7f && c != '"' && c != '\\') {
            return None;
        }
        out.push(code as u8);
        proof {
            assert(s@.take(i + 1) =~= s@.take(i as int).push(s@[i as int]));
            assert(ascii_of(s@.take(i + 1)) =~= ascii_of(s@.take(i as int)).push(
                s@[i as int] as u8,
            ));
        }
        i = i + 1;
    }
    proof {
        assert(s@.take(n as int) =~= s@);
    }
    Some(out)
}

/// Relies on `String::from_utf8`: bytes below 0x80 are valid UTF-8 and decode
/// to exactly those characters.
#[verifier::external_body]
pub fn string_from_ascii(v: Vec<u8>) -> (r: String)
    requires
        forall|i: int| 0 <= i < v@.len() ==> v@[i] < 0x80,
    ensures
        r@.len() == v@.len(),
        forall|i: int| 0 <= i < v@.len() ==> r@[i] == (v@[i] as char),
{
    match String::from_utf8(v) {
        Ok(s) => s,
        Err(_) => String::new(),
    }
}

pub proof fn lemma_string_from_ascii_bytes(chars: Seq<char>, v: Seq<u8>)
    requires
        chars.len() == v.len(),
        forall|i: int| 0 <= i < v.len() ==> v[i] < 0x80,
        forall|i: int| 0 <= i < v.len() ==> chars[i] == (v[i] as char),
    ensures
        ascii_of(chars) == v,
{
    assert forall|i: int| 0 <= i < v.len() implies ascii_of(chars)[i] == v[i] by {
        assert(chars[i] == (v[i] as char));
    }
    assert(ascii_of(chars) =~= v);
}

/// Compares two byte strings.
pub fn bytes_eq(a: &Vec<u8>, b: &Vec<u8>) -> (r: bool)
    ensures
        r == (a@ == b@),
{
    if a.len() != b.len() {
        proof {
            assert(a@ != b@);
        }
        return false;
    }
    let n = a.len();
    let mut i: usize = 0;
    while i < n
        invariant
            0 <= i <= n,
            n == a@.len() && n == b@.len(),
            forall|k: int| 0 <= k < i ==> a@[k] == b@[k],
        decreases n - i,
    {
        if a[i] != b[i] {
            return false;
        }
        i = i + 1;
    }
    proof {
        assert(a@ =~= b@);
    }
    true
}

} // verus!
