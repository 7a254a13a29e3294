//! Account, series and token identifiers: their textual forms.

use vstd::prelude::*;

verus! {

/// The decimal digit for `d`, which is below ten.
pub open spec fn digit_char(d: nat) -> char {
    if d == 0 {
        '0'
    } else if d == 1 {
        '1'
    } else if d == 2 {
        '2'
    } else if d == 3 {
        '3'
    } else if d == 4 {
        '4'
    } else if d == 5 {
        '5'
    } else if d == 6 {
        '6'
    } else if d == 7 {
        '7'
    } else if d == 8 {
        '8'
    } else {
        '9'
    }
}

/// The decimal form of `n`: no sign, no leading zeros.
pub open spec fn decimal(n: nat) -> Seq<char>
    decreases n,
{
    if n < 10 {
        seq![digit_char(n)]
    } else {
        decimal(n / 10).push(digit_char(n % 10))
    }
}

/// Two numbers with the same decimal form are equal.
pub proof fn lemma_decimal_injective(a: nat, b: nat)
    requires
        decimal(a) == decimal(b),
    ensures
        a == b,
    decreases a,
{
    lemma_decimal_len(a / 10);
    lemma_decimal_len(b / 10);
    let da = decimal(a);
    let db = decimal(b);
    if a >= 10 && b >= 10 {
        assert(da == decimal(a / 10).push(digit_char(a % 10)));
        assert(db == decimal(b / 10).push(digit_char(b % 10)));
        assert(da.last() == digit_char(a % 10));
        assert(db.last() == digit_char(b % 10));
        assert(da.drop_last() =~= decimal(a / 10));
        assert(db.drop_last() =~= decimal(b / 10));
        lemma_digit_char_injective(a % 10, b % 10);
        lemma_decimal_injective(a / 10, b / 10);
    } else if a < 10 && b < 10 {
        assert(da[0] == digit_char(a));
        assert(db[0] == digit_char(b));
        lemma_digit_char_injective(a, b);
    } else if a < 10 {
        assert(da.len() == 1);
        assert(db == decimal(b / 10).push(digit_char(b % 10)));
    } else {
        assert(db.len() == 1);
        assert(da == decimal(a / 10).push(digit_char(a % 10)));
    }
}

proof fn lemma_digit_char_injective(a: nat, b: nat)
    requires
        a < 10,
        b < 10,
        digit_char(a) == digit_char(b),
    ensures
        a == b,
{
}

proof fn lemma_decimal_len(n: nat)
    ensures
        decimal(n).len() >= 1,
    decreases n,
{
    if n >= 10 {
        lemma_decimal_len(n / 10);
    }
}

/// A decimal form holds no `:`.
pub proof fn lemma_decimal_no_colon(n: nat)
    ensures
        forall|i: int| 0 <= i < decimal(n).len() ==> decimal(n)[i] != ':',
    decreases n,
{
    if n >= 10 {
        lemma_decimal_no_colon(n / 10);
        let d = decimal(n / 10);
        assert forall|i: int| 0 <= i < decimal(n).len() implies decimal(n)[i] != ':' by {
            if i < d.len() {
                assert(decimal(n)[i] == d[i]);
            }
        }
    }
}

/// The id of the series at position `idx` of the registry: ids count from one.
pub open spec fn series_id_at(idx: int) -> Seq<char> {
    decimal((idx + 1) as nat)
}

/// The id of edition `edition` of series `series_id`, as `<series_id>:<edition>`.
pub open spec fn token_id_of(series_id: Seq<char>, edition: nat) -> Seq<char> {
    series_id + seq![':'] + decimal(edition)
}

/// The position of the first `:` in `t` at or after `i`, or the length of `t`.
pub open spec fn colon_from(t: Seq<char>, i: int) -> int
    decreases t.len() - i,
{
    if i < 0 || i >= t.len() {
        t.len() as int
    } else if t[i] == ':' {
        i
    } else {
        colon_from(t, i + 1)
    }
}

/// The series part of a token id: what stands before its first `:`.
pub open spec fn series_part(t: Seq<char>) -> Seq<char> {
    t.subrange(0, colon_from(t, 0))
}

proof fn lemma_colon_from_bounds(t: Seq<char>, i: int)
    requires
        0 <= i,
    ensures
        i <= colon_from(t, i) <= t.len() || (i > t.len() && colon_from(t, i) == t.len()),
        colon_from(t, i) < t.len() ==> t[colon_from(t, i)] == ':',
        forall|j: int| i <= j < colon_from(t, i) ==> t[j] != ':',
    decreases t.len() - i,
{
    if i < t.len() && t[i] != ':' {
        lemma_colon_from_bounds(t, i + 1);
    }
}

/// The series part of a token id made by `token_id_of` is its series id.
pub proof fn lemma_series_part_of_token_id(series_id: Seq<char>, edition: nat)
    requires
        forall|i: int| 0 <= i < series_id.len() ==> series_id[i] != ':',
    ensures
        series_part(token_id_of(series_id, edition)) == series_id,
{
    let t = token_id_of(series_id, edition);
    lemma_colon_from_bounds(t, 0);
    let c = colon_from(t, 0);
    assert(t[series_id.len() as int] == ':');
    if c < series_id.len() {
        assert(t[c] == series_id[c]);
    }
    assert(c == series_id.len());
    assert(t.subrange(0, c) =~= series_id);
}

/// The decimal form of `n`.
/// Relies on the standard library's `ToString` for `u64`, which writes the
/// number in decimal through `Display`, without sign or leading zeros.
#[verifier::external_body]
pub(crate) fn u64_to_decimal(n: u64) -> (r: String)
    ensures
        r@ == decimal(n as nat),
{
    n.to_string()
}

/// The text of a token id after its first `:`, up to its second one.
pub open spec fn edition_part(t: Seq<char>) -> Seq<char> {
    let c = colon_from(t, 0);
    t.subrange(c + 1, colon_from(t, c + 1))
}

/// The position of the first `:` of `s` at or after `from`, or the length of `s`.
fn colon_position(s: &str, from: usize) -> (r: usize)
    requires
        from <= s@.len(),
    ensures
        r == colon_from(s@, from as int),
        from <= r <= s@.len(),
{
    let n = s.unicode_len();
    let mut i: usize = from;
    while i < n && s.get_char(i) != ':'
        invariant
            n == s@.len(),
            from <= i <= n,
            colon_from(s@, from as int) == colon_from(s@, i as int),
        decreases n - i,
    {
        i = i + 1;
    }
    i
}

/// The series part of a token id: the text before its first `:`, or all of it.
pub fn token_series_part(token_id: &String) -> (r: String)
    ensures
        r@ == series_part(token_id@),
{
    let s = token_id.as_str();
    let c = colon_position(s, 0);
    String::from_str(s.substring_char(0, c))
}

/// The edition part of a token id, where it has a `:`.
pub fn token_edition_part(token_id: &String) -> (r: Option<String>)
    ensures
        match r {
            Some(e) => colon_from(token_id@, 0) < token_id@.len() && e@ == edition_part(token_id@),
            None => colon_from(token_id@, 0) == token_id@.len(),
        },
{
    let s = token_id.as_str();
    let n = s.unicode_len();
    let c = colon_position(s, 0);
    if c >= n {
        return None;
    }
    let d = colon_position(s, c + 1);
    Some(String::from_str(s.substring_char(c + 1, d)))
}

/// A byte of an account id that separates its parts.
pub open spec fn is_separator(c: char) -> bool {
    c == '-' || c == '_' || c == '.'
}

/// A byte of an account id that is not a separator.
pub open spec fn is_account_char(c: char) -> bool {
    ('a' <= c && c <= 'z') || ('0' <= c && c <= '9')
}

/// A valid account id: two to sixty-four characters, each a lower-case letter, a
/// digit or a separator (`-`, `_`, `.`), neither starting nor ending with a
/// separator and with no two separators side by side.
pub open spec fn valid_account_id(s: Seq<char>) -> bool {
    &&& 2 <= s.len() <= 64
    &&& forall|i: int| 0 <= i < s.len() ==> is_account_char(s[i]) || is_separator(s[i])
    &&& !is_separator(s[0])
    &&& !is_separator(s[s.len() - 1])
    &&& forall|i: int| 0 <= i < s.len() - 1 ==> !(#[trigger] is_separator(s[i]) && is_separator(s[i + 1]))
}

/// Whether `s` is a valid account id.
/// Relies on `near_sdk::env::is_valid_account_id`, applied to the UTF-8 bytes of `s`:
/// every byte that it admits is ASCII, so the bytes and the characters coincide
/// whenever it returns `true`.
#[verifier::external_body]
pub(crate) fn is_valid_account(s: &String) -> (r: bool)
    ensures
        r == valid_account_id(s@),
{
    near_sdk::env::is_valid_account_id(s.as_bytes())
}

} // verus!
