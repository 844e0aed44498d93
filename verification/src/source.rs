//! Resolving an image-source string to a comic image URL.
//!
//! A source string names a provider before the first `:`; for the `xkcd`
//! provider an optional second field carries a comic id.  The provider's
//! metadata document is JSON; its `num` field holds the most recent comic's
//! number and its `img` field the image URL.  Fetching documents is the
//! caller's affair: the functions here parse the source string, build the
//! URLs, pick a random comic number, and read fields out of fetched JSON
//! text.

use crate::ascii::AsciiError;
use vstd::prelude::*;
use vstd::string::{StrSliceExecFns, StringExecFns};

verus! {

/// Index of the first `:` at or after `i`, or the string's length if none
/// follows.
pub open spec fn colon_pos(s: Seq<char>, i: int) -> int
    decreases s.len() - i,
    when 0 <= i <= s.len()
{
    if i >= s.len() {
        i
    } else if s[i] == ':' {
        i
    } else {
        colon_pos(s, i + 1)
    }
}

/// `colon_pos` stays between its starting point and the string's end.
pub proof fn lemma_colon_pos_bounds(s: Seq<char>, i: int)
    requires
        0 <= i <= s.len(),
    ensures
        i <= colon_pos(s, i) <= s.len(),
    decreases s.len() - i,
{
    if i < s.len() && s[i] != ':' {
        lemma_colon_pos_bounds(s, i + 1);
    }
}

/// The provider field of a source string: everything before the first `:`.
pub open spec fn spec_source_prefix(s: Seq<char>) -> Seq<char> {
    s.subrange(0, colon_pos(s, 0))
}

/// The comic-id field of a source string: the text between the first `:`
/// and the second (or the end), absent when the string has no `:` at all.
pub open spec fn spec_comic_id(s: Seq<char>) -> Option<Seq<char>> {
    let p = colon_pos(s, 0);
    if p == s.len() {
        None
    } else {
        Some(s.subrange(p + 1, colon_pos(s, p + 1)))
    }
}

/// Finds the first `:` at or after `from`.
fn find_colon(s: &str, from: usize) -> (p: usize)
    requires
        from <= s@.len(),
    ensures
        p == colon_pos(s@, from as int),
{
    let n = s.unicode_len();
    let mut i = from;
    while i < n
        invariant
            from <= i <= n,
            n == s@.len(),
            colon_pos(s@, from as int) == colon_pos(s@, i as int),
        decreases n - i,
    {
        if s.get_char(i) == ':' {
            return i;
        }
        i = i + 1;
    }
    i
}

/// Parses an image-source string.  Succeeds exactly when the provider field
/// is `xkcd`, handing back the comic-id field if one is present; any other
/// provider is an unknown source.
pub fn parse_source(s: &str) -> (r: Result<Option<String>, AsciiError>)
    ensures
        match r {
            Ok(id) => spec_source_prefix(s@) == "xkcd"@ && (match id {
                Some(t) => spec_comic_id(s@) == Some(t@),
                None => spec_comic_id(s@) is None,
            }),
            Err(e) => e == AsciiError::UnknownSource && spec_source_prefix(s@) != "xkcd"@,
        },
{
    proof {
        reveal_strlit("xkcd");
        lemma_colon_pos_bounds(s@, 0);
    }
    let n = s.unicode_len();
    let p = find_colon(s, 0);
    let is_xkcd = p == 4 && s.get_char(0) == 'x' && s.get_char(1) == 'k' && s.get_char(2) == 'c'
        && s.get_char(3) == 'd';
    proof {
        if is_xkcd {
            assert(spec_source_prefix(s@) =~= "xkcd"@);
        } else {
            if spec_source_prefix(s@) == "xkcd"@ {
                let pr = spec_source_prefix(s@);
                assert(pr.len() == 4);
                assert(colon_pos(s@, 0) == 4);
                assert(pr[0] == s@[0] && pr[1] == s@[1] && pr[2] == s@[2] && pr[3] == s@[3]);
                assert(pr[0] == 'x' && pr[1] == 'k' && pr[2] == 'c' && pr[3] == 'd');
            }
        }
    }
    if !is_xkcd {
        return Err(AsciiError::UnknownSource);
    }
    if p < n {
        proof {
            lemma_colon_pos_bounds(s@, p as int + 1);
        }
        let q = find_colon(s, p + 1);
        let id = s.substring_char(p + 1, q);
        Ok(Some(String::from_str(id)))
    } else {
        Ok(None)
    }
}

/// The metadata URL of one comic: `https://xkcd.com/<id>/info.0.json`.
pub fn xkcd_info_url(id: &str) -> (r: String)
    ensures
        r@ == "https://xkcd.com/"@ + id@ + "/info.0.json"@,
{
    let mut u = String::from_str("https://xkcd.com/");
    u.append(id);
    u.append("/info.0.json");
    u
}

/// The decimal digit character of `d`.
pub open spec fn digit_char(d: int) -> char {
    if d == 0 {
        '0'
    } else if d == 1 {
        '1'
    } else if d == 2 {
        '2'
    } else if d == 3 {
        '3'
    } else if d == 4 {
        '4'
    } else if d == 5 {
        '5'
    } else if d == 6 {
        '6'
    } else if d == 7 {
        '7'
    } else if d == 8 {
        '8'
    } else {
        '9'
    }
}

/// The decimal digit string of `n`, most significant digit first.
pub open spec fn dec_digits(n: u64) -> Seq<char>
    decreases n,
{
    if n < 10 {
        seq![digit_char(n as int)]
    } else {
        dec_digits((n / 10) as u64) + seq![digit_char((n % 10) as int)]
    }
}

/// One decimal digit as a string slice.
fn digit_str(d: u64) -> (r: &'static str)
    requires
        d < 10,
    ensures
        r@ == seq![digit_char(d as int)],
{
    proof {
        reveal_strlit("0");
        reveal_strlit("1");
        reveal_strlit("2");
        reveal_strlit("3");
        reveal_strlit("4");
        reveal_strlit("5");
        reveal_strlit("6");
        reveal_strlit("7");
        reveal_strlit("8");
        reveal_strlit("9");
        assert("0"@ =~= seq!['0']);
        assert("1"@ =~= seq!['1']);
        assert("2"@ =~= seq!['2']);
        assert("3"@ =~= seq!['3']);
        assert("4"@ =~= seq!['4']);
        assert("5"@ =~= seq!['5']);
        assert("6"@ =~= seq!['6']);
        assert("7"@ =~= seq!['7']);
        assert("8"@ =~= seq!['8']);
        assert("9"@ =~= seq!['9']);
    }
    if d == 0 {
        "0"
    } else if d == 1 {
        "1"
    } else if d == 2 {
        "2"
    } else if d == 3 {
        "3"
    } else if d == 4 {
        "4"
    } else if d == 5 {
        "5"
    } else if d == 6 {
        "6"
    } else if d == 7 {
        "7"
    } else if d == 8 {
        "8"
    } else {
        "9"
    }
}

/// Writes `n` in decimal.
pub fn decimal_string(n: u64) -> (r: String)
    ensures
        r@ == dec_digits(n),
    decreases n,
{
    if n < 10 {
        String::from_str(digit_str(n))
    } else {
        let mut s = decimal_string(n / 10);
        s.append(digit_str(n % 10));
        s
    }
}

/// Relies on `rand::random_range` over a half-open integer range: the
/// result lies in the range; an empty range panics, so the bounds must be
/// ordered.
#[verifier::external_body]
fn random_in_range(lo: u64, hi: u64) -> (r: u64)
    requires
        lo < hi,
    ensures
        lo <= r < hi,
{
    rand::random_range(lo..hi)
}

/// Draws a random comic number in `1..max_id`, the range of published
/// comics below the most recent one; there is nothing to draw unless at
/// least one comic exists below `max_id`.
pub fn pick_random_comic(max_id: u64) -> (r: Option<u64>)
    ensures
        match r {
            Some(v) => max_id >= 2 && 1 <= v < max_id,
            None => max_id < 2,
        },
{
    if max_id >= 2 {
        Some(random_in_range(1, max_id))
    } else {
        None
    }
}

/// What reading a top-level field of a JSON document as an unsigned integer
/// yields: the field's value when the text parses to an object whose field
/// holds one, nothing otherwise.  Parsing is a pure function of the text and
/// the key, so the result carries a name rather than a grammar.
pub uninterp spec fn json_u64_field(text: Seq<char>, key: Seq<char>) -> Option<u64>;

/// Relies on `serde_json::from_str`, `Value::get` and `Value::as_u64`: the
/// chain parses the text (failures become `None`), looks the key up and
/// reads the field as an unsigned integer — a pure function of text and key.
#[verifier::external_body]
fn json_field_u64(text: &str, key: &str) -> (r: Option<u64>)
    ensures
        r == json_u64_field(text@, key@),
{
    serde_json::from_str::<serde_json::Value>(text)
        .ok()
        .and_then(|v| v.get(key).and_then(|f| f.as_u64()))
}

/// What reading a top-level field of a JSON document as text yields: the
/// field's string when the text parses to an object whose field holds one,
/// nothing otherwise.  A pure function of the text and the key.
pub uninterp spec fn json_str_field(text: Seq<char>, key: Seq<char>) -> Option<Seq<char>>;

/// Relies on `serde_json::from_str`, `Value::get` and `Value::as_str`: the
/// chain parses the text (failures become `None`), looks the key up and
/// reads the field as text — a pure function of text and key.
#[verifier::external_body]
fn json_field_string(text: &str, key: &str) -> (r: Option<String>)
    ensures
        match r {
            Some(s) => json_str_field(text@, key@) == Some(s@),
            None => json_str_field(text@, key@) is None,
        },
{
    serde_json::from_str::<serde_json::Value>(text)
        .ok()
        .and_then(|v| v.get(key).and_then(|f| f.as_str().map(str::to_owned)))
}

/// The most recent comic's number: exactly the metadata document's `num`
/// field, read as an unsigned integer; a missing field, a non-numeric field
/// or unparsable text reads as nothing.
pub fn latest_comic_num(text: &str) -> (r: Option<u64>)
    ensures
        r == json_u64_field(text@, "num"@),
{
    json_field_u64(text, "num")
}

/// The comic's image URL: exactly the metadata document's `img` field,
/// unmodified; a missing field, a non-text field or unparsable text reads
/// as nothing.
pub fn comic_image_url(text: &str) -> (r: Option<String>)
    ensures
        match r {
            Some(u) => json_str_field(text@, "img"@) == Some(u@),
            None => json_str_field(text@, "img"@) is None,
        },
{
    json_field_string(text, "img")
}

/// The meaning of the HTTP status a comic-metadata fetch came back with:
/// not-found means the requested comic does not exist; any other status
/// hands the fetched document on to be read.
pub fn comic_lookup_status(status: u16) -> (r: Result<(), AsciiError>)
    ensures
        status == 404 ==> r == Err::<(), AsciiError>(AsciiError::UnknownComicId),
        status != 404 ==> r == Ok::<(), AsciiError>(()),
{
    if status == 404 {
        Err(AsciiError::UnknownComicId)
    } else {
        Ok(())
    }
}

} // verus!
