//! Text building blocks: decimal numbers, comparison, search and the
//! character filters that keep generated commands and configurations intact.

use crate::lists;
use vstd::prelude::*;
use vstd::string::*;

verus! {

/// `String::push` of the standard library: the character goes behind what the
/// string held.
pub assume_specification[ String::push ](s: &mut String, c: char)
    ensures
        final(s)@ == old(s)@.push(c),
;

/// What `str::to_lowercase` of the standard library makes of a text.
pub uninterp spec fn lowercase(s: Seq<char>) -> Seq<char>;

/// `str::to_lowercase` of the standard library, whose result depends on the
/// text alone.
#[verifier::external_body]
pub(crate) fn to_lowercase(s: &str) -> (out: String)
    ensures
        out@ == lowercase(s@),
{
    s.to_lowercase()
}

// ---- Numbers ---------------------------------------------------------------

/// The decimal digit of a number below ten.
pub open spec fn digit(d: nat) -> char {
    (('0' as nat + d) as u8) as char
}

/// A number in decimal, without sign or leading zeros.
pub open spec fn decimal(n: nat) -> Seq<char>
    decreases n,
{
    if n < 10 {
        seq![digit(n)]
    } else {
        decimal(n / 10).push(digit(n % 10))
    }
}

/// Appends a number in decimal.
pub fn push_decimal(out: &mut String, n: u64)
    ensures
        final(out)@ == old(out)@ + decimal(n as nat),
    decreases n,
{
    if n >= 10 {
        push_decimal(out, n / 10);
    }
    let d: u8 = (n % 10) as u8;
    out.push((48u8 + d) as char);
}

/// A text with a number behind it.
pub fn numbered(before: &str, n: u64) -> (out: String)
    ensures
        out@ == before@ + decimal(n as nat),
{
    let mut out = before.to_owned();
    push_decimal(&mut out, n);
    out
}

/// A text with a number in its middle.
pub fn with_number(before: &str, n: u64, after: &str) -> (out: String)
    ensures
        out@ == before@ + decimal(n as nat) + after@,
{
    let mut out = before.to_owned();
    push_decimal(&mut out, n);
    out.append(after);
    out
}

/// Whether a character is a decimal digit.
pub open spec fn is_digit(c: char) -> bool {
    '0' <= c && c <= '9'
}

/// Decimal numbers are made of digits, and of at least one.
pub proof fn lemma_decimal_digits(n: nat)
    ensures
        decimal(n).len() > 0,
        forall|i: int| 0 <= i < decimal(n).len() ==> is_digit(#[trigger] decimal(n)[i]),
    decreases n,
{
    if n >= 10 {
        lemma_decimal_digits(n / 10);
    }
}

/// Different numbers are written differently.
pub proof fn lemma_decimal_injective(a: nat, b: nat)
    requires
        decimal(a) == decimal(b),
    ensures
        a == b,
    decreases a,
{
    lemma_decimal_digits(a / 10);
    lemma_decimal_digits(b / 10);
    if a < 10 && b < 10 {
        assert(decimal(a)[0] == digit(a));
        assert(decimal(b)[0] == digit(b));
    } else if a >= 10 && b >= 10 {
        assert(decimal(a).drop_last() =~= decimal(a / 10));
        assert(decimal(b).drop_last() =~= decimal(b / 10));
        assert(decimal(a).last() == digit(a % 10));
        assert(decimal(b).last() == digit(b % 10));
        lemma_decimal_injective(a / 10, b / 10);
    } else if a < 10 {
        assert(decimal(b).len() >= 2);
    } else {
        assert(decimal(a).len() >= 2);
    }
}

/// Texts that agree up to a number, and whose rests do not start with a digit,
/// hold the same number and the same rest.
pub proof fn lemma_numbered_injective(
    before: Seq<char>,
    a: nat,
    rest_a: Seq<char>,
    b: nat,
    rest_b: Seq<char>,
)
    requires
        before + decimal(a) + rest_a == before + decimal(b) + rest_b,
        rest_a.len() > 0 ==> !is_digit(rest_a[0]),
        rest_b.len() > 0 ==> !is_digit(rest_b[0]),
    ensures
        a == b,
        rest_a == rest_b,
{
    let left = before + decimal(a) + rest_a;
    let right = before + decimal(b) + rest_b;
    let n = before.len() as int;
    let na = decimal(a).len() as int;
    let nb = decimal(b).len() as int;
    lemma_decimal_digits(a);
    lemma_decimal_digits(b);
    if na < nb {
        assert(left.len() == right.len());
        assert(left[n + na] == rest_a[0]);
        assert(right[n + na] == decimal(b)[na]);
    } else if nb < na {
        assert(left.len() == right.len());
        assert(right[n + nb] == rest_b[0]);
        assert(left[n + nb] == decimal(a)[nb]);
    }
    assert(left.subrange(n, n + na) =~= decimal(a));
    assert(right.subrange(n, n + nb) =~= decimal(b));
    lemma_decimal_injective(a, b);
    assert(left.skip(n + na) =~= rest_a);
    assert(right.skip(n + nb) =~= rest_b);
}

// ---- Characters and sequences ----------------------------------------------

/// The characters of a text.
pub fn chars_of(s: &str) -> (out: Vec<char>)
    ensures
        out@ == s@,
{
    let mut out: Vec<char> = Vec::new();
    for c in it: s.chars()
        invariant
            out@ == it.seq().take(it.index()),
            it.seq() == s@,
    {
        out.push(c);
    }
    out
}

/// The texts of a list of strings.
pub open spec fn texts(list: Seq<String>) -> Seq<Seq<char>> {
    list.map_values(|s: String| s@)
}

/// The texts of a list, one behind the other.
pub open spec fn joined(parts: Seq<Seq<char>>) -> Seq<char>
    decreases parts.len(),
{
    if parts.len() == 0 {
        Seq::empty()
    } else {
        joined(parts.drop_last()) + parts.last()
    }
}

/// Appending a part to a list appends it to the joined text.
pub proof fn lemma_joined_push(parts: Seq<Seq<char>>, part: Seq<char>)
    ensures
        joined(parts.push(part)) == joined(parts) + part,
{
    assert(parts.push(part).drop_last() =~= parts);
}

/// Whether two texts are the same.
pub fn same_text(a: &str, b: &str) -> (same: bool)
    ensures
        same == (a@ == b@),
{
    a.to_owned() == b.to_owned()
}

/// The order of texts: by the code point of the first character in which they
/// differ, a text before its extensions.
pub open spec fn text_before(a: Seq<char>, b: Seq<char>) -> bool
    decreases a.len(),
{
    if b.len() == 0 {
        false
    } else if a.len() == 0 {
        true
    } else if a[0] != b[0] {
        a[0] < b[0]
    } else {
        text_before(a.skip(1), b.skip(1))
    }
}

/// Whether one text comes before another.
pub fn comes_before(a: &str, b: &str) -> (before: bool)
    ensures
        before == text_before(a@, b@),
{
    let left = chars_of(a);
    let right = chars_of(b);
    let mut i: usize = 0;
    proof {
        assert(left@.skip(0) =~= a@);
        assert(right@.skip(0) =~= b@);
    }
    while i < left.len() && i < right.len() && left[i] == right[i]
        invariant
            left@ == a@,
            right@ == b@,
            i <= left@.len(),
            i <= right@.len(),
            text_before(a@, b@) == text_before(left@.skip(i as int), right@.skip(i as int)),
        decreases left@.len() - i,
    {
        proof {
            assert(left@.skip(i as int).skip(1) =~= left@.skip(i + 1));
            assert(right@.skip(i as int).skip(1) =~= right@.skip(i + 1));
        }
        i += 1;
    }
    if i == right.len() {
        false
    } else if i == left.len() {
        true
    } else {
        left[i] < right[i]
    }
}

/// No text comes before itself.
pub proof fn lemma_before_irreflexive(a: Seq<char>)
    ensures
        !text_before(a, a),
    decreases a.len(),
{
    if a.len() > 0 {
        lemma_before_irreflexive(a.skip(1));
    }
}

/// Of two different texts one comes before the other.
pub proof fn lemma_before_total(a: Seq<char>, b: Seq<char>)
    ensures
        a == b || text_before(a, b) || text_before(b, a),
    decreases a.len(),
{
    if a.len() > 0 && b.len() > 0 {
        lemma_before_total(a.skip(1), b.skip(1));
        if a[0] == b[0] && a.skip(1) == b.skip(1) {
            assert(a =~= seq![a[0]] + a.skip(1));
            assert(b =~= seq![b[0]] + b.skip(1));
        }
    } else if a.len() == 0 && b.len() == 0 {
        assert(a =~= b);
    }
}

/// The order of texts is transitive.
pub proof fn lemma_before_transitive(a: Seq<char>, b: Seq<char>, c: Seq<char>)
    requires
        text_before(a, b),
        text_before(b, c),
    ensures
        text_before(a, c),
    decreases a.len(),
{
    if a.len() > 0 && a[0] == b[0] && b[0] == c[0] {
        lemma_before_transitive(a.skip(1), b.skip(1), c.skip(1));
    }
}

/// Whether a text stands somewhere in another.
pub open spec fn holds_text(hay: Seq<char>, needle: Seq<char>) -> bool {
    exists|i: int|
        0 <= i <= hay.len() - needle.len() && #[trigger] hay.subrange(i, i + needle.len())
            == needle
}

/// Whether `needle` stands at position `at` of `hay`.
fn stands_at(hay: &Vec<char>, needle: &Vec<char>, at: usize) -> (found: bool)
    requires
        at + needle@.len() <= hay@.len(),
    ensures
        found == (hay@.subrange(at as int, at + needle@.len()) == needle@),
{
    let total: usize = hay.len();
    let mut k: usize = 0;
    while k < needle.len()
        invariant
            total == hay@.len(),
            at + needle@.len() <= hay@.len(),
            k <= needle@.len(),
            forall|j: int| 0 <= j < k ==> hay@[at + j] == needle@[j],
        decreases needle@.len() - k,
    {
        if hay[at + k] != needle[k] {
            assert(hay@.subrange(at as int, at + needle@.len())[k as int] != needle@[k as int]);
            return false;
        }
        k += 1;
    }
    assert(hay@.subrange(at as int, at + needle@.len()) =~= needle@);
    true
}

/// Whether `needle` stands somewhere in `hay`.
pub fn contains_text(hay: &str, needle: &str) -> (found: bool)
    ensures
        found == holds_text(hay@, needle@),
{
    let h = chars_of(hay);
    let n = chars_of(needle);
    if n.len() > h.len() {
        return false;
    }
    let last: usize = h.len() - n.len();
    let mut i: usize = 0;
    while i < last
        invariant
            h@ == hay@,
            n@ == needle@,
            last == h@.len() - n@.len(),
            i <= last,
            forall|j: int| 0 <= j < i ==> #[trigger] h@.subrange(j, j + n@.len()) != n@,
        decreases last - i,
    {
        if stands_at(&h, &n, i) {
            return true;
        }
        i += 1;
    }
    stands_at(&h, &n, last)
}

// ---- Filters ---------------------------------------------------------------

/// The Unicode white space characters.
pub open spec fn is_white_space(c: char) -> bool {
    let n = c as u32;
    ||| 0x9 <= n <= 0xd
    ||| n == 0x20
    ||| n == 0x85
    ||| n == 0xa0
    ||| n == 0x1680
    ||| 0x2000 <= n <= 0x200a
    ||| n == 0x2028
    ||| n == 0x2029
    ||| n == 0x202f
    ||| n == 0x205f
    ||| n == 0x3000
}

/// Whether a character is white space.
pub fn white_space(c: char) -> (yes: bool)
    ensures
        yes == is_white_space(c),
{
    let n: u32 = c as u32;
    (0x9 <= n && n <= 0xd) || n == 0x20 || n == 0x85 || n == 0xa0 || n == 0x1680 || (0x2000 <= n
        && n <= 0x200a) || n == 0x2028 || n == 0x2029 || n == 0x202f || n == 0x205f || n == 0x3000
}

/// Whether a text holds nothing but white space.
pub open spec fn blank(s: Seq<char>) -> bool {
    forall|i: int| 0 <= i < s.len() ==> is_white_space(#[trigger] s[i])
}

/// Whether a text holds nothing but white space.
pub fn is_blank(s: &str) -> (yes: bool)
    ensures
        yes == blank(s@),
{
    let chars = chars_of(s);
    let mut i: usize = 0;
    while i < chars.len()
        invariant
            chars@ == s@,
            i <= chars@.len(),
            forall|j: int| 0 <= j < i ==> is_white_space(#[trigger] s@[j]),
        decreases chars@.len() - i,
    {
        if !white_space(chars[i]) {
            assert(!is_white_space(s@[i as int]));
            return false;
        }
        i += 1;
    }
    true
}

/// The characters of tokens: ASCII letters and digits, `_`, `-` and `.`.
pub open spec fn is_token_char(c: char) -> bool {
    ||| '0' <= c && c <= '9'
    ||| 'A' <= c && c <= 'Z'
    ||| 'a' <= c && c <= 'z'
    ||| c == '_'
    ||| c == '-'
    ||| c == '.'
}

/// The characters of URIs: neither white space nor quotes nor backslashes.
pub open spec fn is_uri_char(c: char) -> bool {
    !is_white_space(c) && c != '"' && c != '\'' && c != '\\'
}

/// The part of a text that can stand in a token.
pub open spec fn token(s: Seq<char>) -> Seq<char> {
    s.filter(|c: char| is_token_char(c))
}

/// The part of a text that can stand in a quoted URI.
pub open spec fn clean_uri(s: Seq<char>) -> Seq<char> {
    s.filter(|c: char| is_uri_char(c))
}

/// Drops the characters that cannot stand in a token.
pub fn sanitize_token(s: &str) -> (out: String)
    ensures
        out@ == token(s@),
{
    let chars = chars_of(s);
    let ghost keep = |c: char| is_token_char(c);
    let mut out = String::new();
    let mut i: usize = 0;
    proof {
        reveal(Seq::filter);
    }
    while i < chars.len()
        invariant
            chars@ == s@,
            i <= chars@.len(),
            keep == (|c: char| is_token_char(c)),
            out@ == chars@.take(i as int).filter(keep),
        decreases chars@.len() - i,
    {
        let c = chars[i];
        proof {
            reveal(Seq::filter);
            assert(chars@.take(i + 1).drop_last() =~= chars@.take(i as int));
        }
        if ('0' <= c && c <= '9') || ('A' <= c && c <= 'Z') || ('a' <= c && c <= 'z') || c == '_'
            || c == '-' || c == '.' {
            out.push(c);
        }
        i += 1;
    }
    assert(chars@.take(i as int) =~= s@);
    out
}

/// Drops the characters that cannot stand in a quoted URI.
pub fn sanitize_uri(s: &str) -> (out: String)
    ensures
        out@ == clean_uri(s@),
{
    let chars = chars_of(s);
    let ghost keep = |c: char| is_uri_char(c);
    let mut out = String::new();
    let mut i: usize = 0;
    proof {
        reveal(Seq::filter);
    }
    while i < chars.len()
        invariant
            chars@ == s@,
            i <= chars@.len(),
            keep == (|c: char| is_uri_char(c)),
            out@ == chars@.take(i as int).filter(keep),
        decreases chars@.len() - i,
    {
        let c = chars[i];
        proof {
            reveal(Seq::filter);
            assert(chars@.take(i + 1).drop_last() =~= chars@.take(i as int));
        }
        if !white_space(c) && c != '"' && c != '\'' && c != '\\' {
            out.push(c);
        }
        i += 1;
    }
    assert(chars@.take(i as int) =~= s@);
    out
}

/// Tokens hold token characters only, and cleaning one again changes nothing.
pub proof fn law_token_clean(s: Seq<char>)
    ensures
        forall|i: int| 0 <= i < token(s).len() ==> is_token_char(#[trigger] token(s)[i]),
        token(token(s)) == token(s),
{
    let keep = |c: char| is_token_char(c);
    broadcast use vstd::seq_lib::group_filter_ensures;

    assert forall|i: int| 0 <= i < token(s).len() implies is_token_char(
        #[trigger] token(s)[i],
    ) by {
        assert(keep(s.filter(keep)[i]));
    }
    lists::lemma_filter_all(token(s), keep);
}

/// Cleaned URIs cannot leave the quotes they are put in, and cleaning one
/// again changes nothing.
pub proof fn law_uri_clean(s: Seq<char>)
    ensures
        forall|i: int| 0 <= i < clean_uri(s).len() ==> is_uri_char(#[trigger] clean_uri(s)[i]),
        clean_uri(clean_uri(s)) == clean_uri(s),
{
    let keep = |c: char| is_uri_char(c);
    broadcast use vstd::seq_lib::group_filter_ensures;

    assert forall|i: int| 0 <= i < clean_uri(s).len() implies is_uri_char(
        #[trigger] clean_uri(s)[i],
    ) by {
        assert(keep(s.filter(keep)[i]));
    }
    lists::lemma_filter_all(clean_uri(s), keep);
}

// ---- Finding parts of a text ------------------------------------------------

/// A text holds what stands between two others in it.
pub proof fn lemma_holds_middle(before: Seq<char>, part: Seq<char>, after: Seq<char>)
    ensures
        holds_text(before + part + after, part),
{
    let all = before + part + after;
    let i = before.len() as int;
    assert(all.subrange(i, i + part.len()) =~= part);
}

/// A text holds what one of its parts holds.
pub proof fn lemma_holds_transitive(all: Seq<char>, part: Seq<char>, piece: Seq<char>)
    requires
        holds_text(all, part),
        holds_text(part, piece),
    ensures
        holds_text(all, piece),
{
    let i = choose|i: int|
        0 <= i <= all.len() - part.len() && #[trigger] all.subrange(i, i + part.len()) == part;
    let j = choose|j: int|
        0 <= j <= part.len() - piece.len() && #[trigger] part.subrange(j, j + piece.len())
            == piece;
    assert(all.subrange(i + j, i + j + piece.len()) =~= piece);
}

/// Joined parts hold each of the parts.
pub proof fn lemma_holds_joined(parts: Seq<Seq<char>>, i: int)
    requires
        0 <= i < parts.len(),
    ensures
        holds_text(joined(parts), parts[i]),
    decreases parts.len(),
{
    let rest = parts.drop_last();
    if i == parts.len() - 1 {
        lemma_holds_middle(joined(rest), parts.last(), Seq::empty());
        assert(joined(rest) + parts.last() + Seq::<char>::empty() =~= joined(parts));
    } else {
        lemma_holds_joined(rest, i);
        lemma_holds_middle(Seq::empty(), joined(rest), parts.last());
        assert(Seq::<char>::empty() + joined(rest) + parts.last() =~= joined(parts));
        lemma_holds_transitive(joined(parts), joined(rest), parts[i]);
    }
}

// ---- Laws -------------------------------------------------------------------

/// The number that a text of digits stands for.
pub open spec fn number_of(s: Seq<char>) -> nat
    decreases s.len(),
{
    if s.len() == 0 {
        0
    } else {
        number_of(s.drop_last()) * 10 + (s.last() as nat - '0' as nat) as nat
    }
}

/// A number that is written in decimal reads as that number, and only 0 starts
/// with a zero.
pub proof fn law_decimal_reads_back(n: nat)
    ensures
        number_of(decimal(n)) == n,
        decimal(n)[0] == '0' ==> n == 0,
    decreases n,
{
    if n < 10 {
        reveal_with_fuel(number_of, 2);
        assert(decimal(n).drop_last() =~= Seq::empty());
    } else {
        law_decimal_reads_back(n / 10);
        lemma_decimal_digits(n / 10);
        assert(decimal(n).drop_last() =~= decimal(n / 10));
        assert(decimal(n)[0] == decimal(n / 10)[0]);
    }
}

/// Texts are ordered by the first character in which they differ, and a text
/// comes before any that continues it.
pub proof fn law_text_order(
    same: Seq<char>,
    a: char,
    rest_a: Seq<char>,
    b: char,
    rest_b: Seq<char>,
)
    requires
        a < b,
    ensures
        text_before(same.push(a) + rest_a, same.push(b) + rest_b),
        !text_before(same.push(b) + rest_b, same.push(a) + rest_a),
        text_before(same, same.push(a) + rest_a),
        !text_before(same.push(a) + rest_a, same),
        !text_before(same, same),
    decreases same.len(),
{
    lemma_before_irreflexive(same);
    let left = same.push(a) + rest_a;
    let right = same.push(b) + rest_b;
    if same.len() > 0 {
        let less = same.skip(1);
        law_text_order(less, a, rest_a, b, rest_b);
        assert(left.skip(1) =~= less.push(a) + rest_a);
        assert(right.skip(1) =~= less.push(b) + rest_b);
        assert(left[0] == same[0] && right[0] == same[0]);
    } else {
        assert(left[0] == a && right[0] == b);
    }
}

/// Only letters, digits, underscores, hyphens and dots are left of a text in a
/// token, and all of those are, in their order.
pub proof fn law_token_keeps(s: Seq<char>, c: char)
    ensures
        token(s.push(c)) == if {
            ||| 'a' <= c <= 'z'
            ||| 'A' <= c <= 'Z'
            ||| '0' <= c <= '9'
            ||| c == '_'
            ||| c == '-'
            ||| c == '.'
        } {
            token(s).push(c)
        } else {
            token(s)
        },
        token(Seq::empty()).len() == 0,
{
    let keep = |c: char| is_token_char(c);
    lists::lemma_filter_push(s, c, keep);
    reveal(Seq::filter);
}

/// Everything but white space, quotes and backslashes is left of a text in a
/// quoted URI, in its order.
pub proof fn law_uri_keeps(s: Seq<char>, c: char)
    ensures
        clean_uri(s.push(c)) == if is_white_space(c) || c == '"' || c == '\'' || c == '\\' {
            clean_uri(s)
        } else {
            clean_uri(s).push(c)
        },
        clean_uri(Seq::empty()).len() == 0,
{
    let keep = |c: char| is_uri_char(c);
    lists::lemma_filter_push(s, c, keep);
    reveal(Seq::filter);
}

/// White space is what Unicode counts as such: among the ASCII characters the
/// blank, the tab and the line and page breaks, and nothing else.
pub proof fn law_white_space(c: char)
    ensures
        (c as u32) < 128 ==> is_white_space(c) == (c == ' ' || c == '\t' || c == '\n' || c == '\r'
            || c == '\u{b}' || c == '\u{c}'),
        (c as u32) >= 128 ==> is_white_space(c) == (c == '\u{85}' || c == '\u{a0}' || c
            == '\u{1680}' || ('\u{2000}' <= c && c <= '\u{200a}') || c == '\u{2028}' || c
            == '\u{2029}' || c == '\u{202f}' || c == '\u{205f}' || c == '\u{3000}'),
{
}

/// A text is blank exactly if white space is all there is in it: the empty text
/// is, and it stays so exactly as long as white space is put behind it.
pub proof fn law_blank(s: Seq<char>, c: char)
    ensures
        blank(Seq::empty()),
        blank(s.push(c)) == (blank(s) && is_white_space(c)),
{
    let all = s.push(c);
    if blank(all) {
        assert forall|i: int| 0 <= i < s.len() implies is_white_space(#[trigger] s[i]) by {
            assert(all[i] == s[i]);
        }
        assert(all[s.len() as int] == c);
    }
}

} // verus!
