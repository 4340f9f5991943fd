//! Character-level text helpers: whitespace trimming, line splitting and
//! the small string transformations the rest of the library builds on.
use vstd::prelude::*;

verus! {

/// Name for the Unicode `White_Space` property, as tested by `char::is_whitespace`.
pub uninterp spec fn is_unicode_whitespace(c: char) -> bool;

/// `char::is_whitespace`: true exactly for characters with the Unicode
/// `White_Space` property.  Among ASCII characters these are the space and the
/// controls U+0009 to U+000D.
#[verifier::external_body]
pub(crate) fn char_is_whitespace(c: char) -> (b: bool)
    ensures
        b == is_unicode_whitespace(c),
        (c as u32) < 128 ==> (b <==> (c == ' ' || (9 <= (c as u32) && (c as u32) <= 13))),
{
    c.is_whitespace()
}

/// `String::from_iter` over a slice of characters: the string holds exactly those characters.
#[verifier::external_body]
pub(crate) fn string_from_chars(v: &[char]) -> (s: String)
    ensures
        s@ == v@,
{
    String::from_iter(v.iter())
}

/// Name for the characters that `char::to_lowercase` yields for `c`.
pub uninterp spec fn char_lowercase(c: char) -> Seq<char>;

/// The ASCII lower-case form of `c` (other characters unchanged).
pub open spec fn ascii_lower(c: char) -> char {
    if 65 <= (c as u32) && (c as u32) <= 90 {
        ((c as u32) + 32) as char
    } else {
        c
    }
}

/// `char::to_lowercase`, collected into a string.  For an ASCII character the
/// result is the single ASCII lower-case character.
#[verifier::external_body]
pub(crate) fn lowercase_char(c: char) -> (s: String)
    ensures
        s@ == char_lowercase(c),
        (c as u32) < 128 ==> s@ == seq![ascii_lower(c)],
{
    String::from_iter(c.to_lowercase())
}

/// The characters of a string, in order.
pub fn chars_of(s: &str) -> (v: Vec<char>)
    ensures
        v@ == s@,
{
    let mut v: Vec<char> = Vec::new();
    for c in it: s.chars()
        invariant
            v@ == it.seq().take(it.index() as int),
            it.seq() == s@,
    {
        v.push(c);
    }
    v
}

/// Copies `v[lo..hi]`.
pub fn copy_range(v: &[char], lo: usize, hi: usize) -> (r: Vec<char>)
    requires
        lo <= hi <= v@.len(),
    ensures
        r@ == v@.subrange(lo as int, hi as int),
{
    let mut r: Vec<char> = Vec::new();
    let mut i = lo;
    while i < hi
        invariant
            lo <= i <= hi <= v@.len(),
            r@ == v@.subrange(lo as int, i as int),
        decreases hi - i,
    {
        r.push(v[i]);
        i += 1;
        assert(r@ =~= v@.subrange(lo as int, i as int));
    }
    r
}

/// `s` without its leading whitespace.
pub open spec fn trim_start_ws(s: Seq<char>) -> Seq<char>
    decreases s.len(),
{
    if s.len() > 0 && is_unicode_whitespace(s[0]) {
        trim_start_ws(s.drop_first())
    } else {
        s
    }
}

/// `s` without its trailing whitespace.
pub open spec fn trim_end_ws(s: Seq<char>) -> Seq<char>
    decreases s.len(),
{
    if s.len() > 0 && is_unicode_whitespace(s.last()) {
        trim_end_ws(s.drop_last())
    } else {
        s
    }
}

/// `s` without leading and trailing whitespace (what `str::trim` gives).
pub open spec fn trim_ws(s: Seq<char>) -> Seq<char> {
    trim_end_ws(trim_start_ws(s))
}

/// Index of the first non-whitespace character of `v` (its length if there is none).
fn leading_ws_end(v: &[char]) -> (k: usize)
    ensures
        k <= v@.len(),
        trim_start_ws(v@) == v@.subrange(k as int, v@.len() as int),
{
    let mut k: usize = 0;
    assert(v@.subrange(0, v@.len() as int) =~= v@);
    while k < v.len()
        invariant
            k <= v@.len(),
            trim_start_ws(v@) == trim_start_ws(v@.subrange(k as int, v@.len() as int)),
        decreases v@.len() - k,
    {
        if !char_is_whitespace(v[k]) {
            return k;
        }
        let ghost rest = v@.subrange(k as int, v@.len() as int);
        assert(rest.drop_first() =~= v@.subrange(k + 1, v@.len() as int));
        k += 1;
    }
    assert(v@.subrange(k as int, v@.len() as int) =~= Seq::<char>::empty());
    k
}

/// Index just past the last non-whitespace character of `v[..hi]` (0 if there is none).
fn trailing_ws_start(v: &[char], lo: usize) -> (k: usize)
    requires
        lo <= v@.len(),
    ensures
        lo <= k <= v@.len(),
        trim_end_ws(v@.subrange(lo as int, v@.len() as int)) == v@.subrange(lo as int, k as int),
{
    let mut k: usize = v.len();
    while k > lo
        invariant
            lo <= k <= v@.len(),
            trim_end_ws(v@.subrange(lo as int, v@.len() as int)) == trim_end_ws(
                v@.subrange(lo as int, k as int),
            ),
        decreases k - lo,
    {
        if !char_is_whitespace(v[k - 1]) {
            return k;
        }
        let ghost cur = v@.subrange(lo as int, k as int);
        assert(cur.drop_last() =~= v@.subrange(lo as int, k - 1));
        k -= 1;
    }
    k
}

/// `v` without leading whitespace.
pub fn trim_start_chars(v: &[char]) -> (r: Vec<char>)
    ensures
        r@ == trim_start_ws(v@),
{
    let k = leading_ws_end(v);
    copy_range(v, k, v.len())
}

/// `v` without leading and trailing whitespace.
pub fn trim_chars(v: &[char]) -> (r: Vec<char>)
    ensures
        r@ == trim_ws(v@),
{
    let k = leading_ws_end(v);
    let e = trailing_ws_start(v, k);
    copy_range(v, k, e)
}

/// `str::trim` on a string: the same text without leading and trailing whitespace.
pub fn trim_str(s: &str) -> (r: String)
    ensures
        r@ == trim_ws(s@),
{
    let v = chars_of(s);
    let t = trim_chars(v.as_slice());
    string_from_chars(t.as_slice())
}

/// A line as `str::lines` yields it: without its `\n` terminator and,
/// when it had one, without a `\r` just before it.
pub open spec fn strip_cr(line: Seq<char>) -> Seq<char> {
    if line.len() > 0 && line.last() == '\r' {
        line.drop_last()
    } else {
        line
    }
}

/// The lines of `s` (scanning from the current partial line `cur`), as `str::lines` gives them.
pub open spec fn lines_from(s: Seq<char>, cur: Seq<char>) -> Seq<Seq<char>>
    decreases s.len(),
{
    if s.len() == 0 {
        if cur.len() == 0 {
            seq![]
        } else {
            seq![cur]
        }
    } else if s[0] == '\n' {
        seq![strip_cr(cur)] + lines_from(s.drop_first(), seq![])
    } else {
        lines_from(s.drop_first(), cur.push(s[0]))
    }
}

/// The lines of `s`, as `str::lines` gives them.
pub open spec fn lines_of(s: Seq<char>) -> Seq<Seq<char>> {
    lines_from(s, seq![])
}

/// The views of a sequence of character vectors.
pub open spec fn views_of(v: Seq<Vec<char>>) -> Seq<Seq<char>> {
    v.map_values(|l: Vec<char>| l@)
}

/// The views of a sequence of strings.
pub open spec fn strings_view(v: Seq<String>) -> Seq<Seq<char>> {
    v.map_values(|s: String| s@)
}

/// Splits `v` into lines as `str::lines` does.
pub fn split_lines(v: &[char]) -> (r: Vec<Vec<char>>)
    ensures
        views_of(r@) == lines_of(v@),
{
    let mut out: Vec<Vec<char>> = Vec::new();
    let mut cur: Vec<char> = Vec::new();
    let mut i: usize = 0;
    assert(v@.subrange(0, v@.len() as int) =~= v@);
    assert(views_of(out@) =~= Seq::<Seq<char>>::empty());
    assert(cur@ =~= Seq::<char>::empty());
    while i < v.len()
        invariant
            i <= v@.len(),
            lines_of(v@) == views_of(out@) + lines_from(v@.subrange(i as int, v@.len() as int), cur@),
        decreases v@.len() - i,
    {
        let ghost rest = v@.subrange(i as int, v@.len() as int);
        assert(rest.drop_first() =~= v@.subrange(i + 1, v@.len() as int));
        let c = v[i];
        if c == '\n' {
            let ghost old_out = out@;
            let ghost old_cur = cur@;
            let mut line = cur;
            if line.len() > 0 && line[line.len() - 1] == '\r' {
                line.pop();
            }
            assert(line@ =~= strip_cr(old_cur));
            out.push(line);
            cur = Vec::new();
            assert(views_of(out@) =~= views_of(old_out) + seq![strip_cr(old_cur)]) by {
                assert(views_of(out@) =~= views_of(old_out).push(line@));
            }
            assert(cur@ =~= Seq::<char>::empty());
        } else {
            cur.push(c);
        }
        i += 1;
    }
    assert(v@.subrange(i as int, v@.len() as int) =~= Seq::<char>::empty());
    if cur.len() > 0 {
        let ghost old_out = out@;
        out.push(cur);
        assert(views_of(out@) =~= views_of(old_out).push(cur@));
    } else {
        assert(views_of(out@) =~= views_of(out@) + Seq::<Seq<char>>::empty());
    }
    out
}

/// Whether `prefix` begins `s`.
pub fn has_prefix(s: &[char], prefix: &[char]) -> (b: bool)
    ensures
        b == prefix@.is_prefix_of(s@),
{
    if prefix.len() > s.len() {
        return false;
    }
    let mut i: usize = 0;
    while i < prefix.len()
        invariant
            prefix@.len() <= s@.len(),
            i <= prefix@.len(),
            forall|j: int| 0 <= j < i ==> prefix@[j] == s@[j],
        decreases prefix@.len() - i,
    {
        if prefix[i] != s[i] {
            return false;
        }
        i += 1;
    }
    true
}

/// Whether two character sequences are equal.
pub fn chars_equal(a: &[char], b: &[char]) -> (r: bool)
    ensures
        r == (a@ == b@),
{
    if a.len() != b.len() {
        return false;
    }
    let mut i: usize = 0;
    while i < a.len()
        invariant
            a@.len() == b@.len(),
            i <= a@.len(),
            forall|j: int| 0 <= j < i ==> a@[j] == b@[j],
        decreases a@.len() - i,
    {
        if a[i] != b[i] {
            return false;
        }
        i += 1;
    }
    assert(a@ =~= b@);
    true
}

/// Each character of `s` replaced by its lower-case form (`char::to_lowercase`).
pub open spec fn lowercase_chars(s: Seq<char>) -> Seq<char>
    decreases s.len(),
{
    if s.len() == 0 {
        seq![]
    } else {
        lowercase_chars(s.drop_last()) + char_lowercase(s.last())
    }
}

/// Lower-cases every character of `v`.
pub fn lowercase_vec(v: &[char]) -> (r: Vec<char>)
    ensures
        r@ == lowercase_chars(v@),
{
    let mut r: Vec<char> = Vec::new();
    let mut i: usize = 0;
    assert(v@.subrange(0, 0) =~= Seq::<char>::empty());
    while i < v.len()
        invariant
            i <= v@.len(),
            r@ == lowercase_chars(v@.subrange(0, i as int)),
        decreases v@.len() - i,
    {
        let low = lowercase_char(v[i]);
        let lv = chars_of(low.as_str());
        let ghost before = r@;
        let mut j: usize = 0;
        while j < lv.len()
            invariant
                j <= lv@.len(),
                r@ == before + lv@.subrange(0, j as int),
            decreases lv@.len() - j,
        {
            r.push(lv[j]);
            j += 1;
            assert(r@ =~= before + lv@.subrange(0, j as int));
        }
        assert(lv@.subrange(0, j as int) =~= lv@);
        assert(v@.subrange(0, i + 1).drop_last() =~= v@.subrange(0, i as int));
        i += 1;
    }
    assert(v@.subrange(0, i as int) =~= v@);
    r
}

/// Whether `s` equals one of `options`.
pub fn equals_any(s: &[char], options: &Vec<&str>) -> (b: bool)
    ensures
        b == exists|k: int| 0 <= k < options@.len() && options@[k]@ == s@,
{
    let mut k: usize = 0;
    while k < options.len()
        invariant
            k <= options@.len(),
            forall|j: int| 0 <= j < k ==> options@[j]@ != s@,
        decreases options@.len() - k,
    {
        let o = chars_of(options[k]);
        if chars_equal(o.as_slice(), s) {
            return true;
        }
        k += 1;
    }
    false
}

/// `s` with every `from` replaced by `to` (what `str::replace` gives for one-character patterns).
pub open spec fn replace_char(s: Seq<char>, from: char, to: char) -> Seq<char> {
    s.map_values(|c: char| if c == from { to } else { c })
}

/// Replaces every occurrence of `from` in `v` by `to`.
pub fn replace_char_vec(v: &[char], from: char, to: char) -> (r: Vec<char>)
    ensures
        r@ == replace_char(v@, from, to),
{
    let mut r: Vec<char> = Vec::new();
    let mut i: usize = 0;
    while i < v.len()
        invariant
            i <= v@.len(),
            r@ == replace_char(v@.subrange(0, i as int), from, to),
        decreases v@.len() - i,
    {
        let c = v[i];
        r.push(if c == from { to } else { c });
        i += 1;
        assert(r@ =~= replace_char(v@.subrange(0, i as int), from, to));
    }
    assert(v@.subrange(0, i as int) =~= v@);
    r
}

/// The decimal digit for `d < 10`.
pub open spec fn digit_char(d: nat) -> char {
    ((d + 48) as u32) as char
}

/// The decimal representation of `n`, as `{}` formats it.
pub open spec fn decimal(n: nat) -> Seq<char>
    decreases n,
{
    if n < 10 {
        seq![digit_char(n)]
    } else {
        decimal(n / 10).push(digit_char(n % 10))
    }
}

/// Formats `n` in decimal.
pub fn decimal_chars(n: usize) -> (r: Vec<char>)
    ensures
        r@ == decimal(n as nat),
    decreases n,
{
    let d = (n % 10) as u32;
    let c = char_from_digit(d);
    if n < 10 {
        vec![c]
    } else {
        let mut r = decimal_chars(n / 10);
        r.push(c);
        r
    }
}

fn char_from_digit(d: u32) -> (c: char)
    requires
        d < 10,
    ensures
        c == digit_char(d as nat),
{
    if d == 0 { '0' } else if d == 1 { '1' } else if d == 2 { '2' } else if d == 3 { '3' }
    else if d == 4 { '4' } else if d == 5 { '5' } else if d == 6 { '6' } else if d == 7 { '7' }
    else if d == 8 { '8' } else { '9' }
}

/// The elements of `s` in decimal, separated by `", "`.
pub open spec fn joined_decimals(s: Seq<usize>) -> Seq<char>
    decreases s.len(),
{
    if s.len() == 0 {
        seq![]
    } else if s.len() == 1 {
        decimal(s[0] as nat)
    } else {
        joined_decimals(s.drop_last()) + ", "@ + decimal(s.last() as nat)
    }
}

/// A list of integers as `{:?}` formats it: `[1, 2, 3]`.
pub open spec fn debug_list(s: Seq<usize>) -> Seq<char> {
    "["@ + joined_decimals(s) + "]"@
}

/// Appends the characters of `src` to `dst`.
pub fn extend_chars(dst: &mut Vec<char>, src: &[char])
    ensures
        final(dst)@ == old(dst)@ + src@,
{
    let mut i: usize = 0;
    while i < src.len()
        invariant
            i <= src@.len(),
            dst@ == old(dst)@ + src@.subrange(0, i as int),
        decreases src@.len() - i,
    {
        dst.push(src[i]);
        i += 1;
        assert(dst@ =~= old(dst)@ + src@.subrange(0, i as int));
    }
    assert(src@.subrange(0, i as int) =~= src@);
}

/// Appends the characters of a string to `dst`.
pub fn extend_str(dst: &mut Vec<char>, src: &str)
    ensures
        final(dst)@ == old(dst)@ + src@,
{
    let v = chars_of(src);
    extend_chars(dst, v.as_slice());
}

/// Formats a list of integers as `{:?}` does.
pub fn debug_list_chars(s: &[usize]) -> (r: Vec<char>)
    ensures
        r@ == debug_list(s@),
{
    let mut r: Vec<char> = Vec::new();
    extend_str(&mut r, "[");
    let ghost start = r@;
    let mut i: usize = 0;
    assert(s@.subrange(0, 0) =~= Seq::<usize>::empty());
    while i < s.len()
        invariant
            i <= s@.len(),
            start == "["@,
            r@ == start + joined_decimals(s@.subrange(0, i as int)),
        decreases s@.len() - i,
    {
        let ghost prev = r@;
        if i > 0 {
            extend_str(&mut r, ", ");
        }
        let d = decimal_chars(s[i]);
        extend_chars(&mut r, d.as_slice());
        assert(s@.subrange(0, i + 1).drop_last() =~= s@.subrange(0, i as int));
        if i == 0 {
            assert(r@ =~= start + joined_decimals(s@.subrange(0, i + 1)));
        } else {
            assert(r@ =~= start + joined_decimals(s@.subrange(0, i + 1)));
        }
        i += 1;
    }
    assert(s@.subrange(0, i as int) =~= s@);
    extend_str(&mut r, "]");
    r
}

} // verus!
