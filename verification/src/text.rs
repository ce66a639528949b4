//! Character-level text primitives shared by the rest of the library.
//!
//! Text is modelled as `Seq<char>` (the view of `String` and `str`).  Work that
//! scans text happens on `Vec<char>` buffers; `String` values are produced at the
//! edges with [`string_of`].
use vstd::prelude::*;
use vstd::string::StringExecFns;

verus! {

/// The Unicode `White_Space` property, which `char::is_whitespace` (and hence
/// `str::trim`) is documented to follow.
pub open spec fn is_ws(c: char) -> bool {
    ||| ('\u{9}' <= c && c <= '\u{d}')
    ||| c == ' '
    ||| c == '\u{85}'
    ||| c == '\u{a0}'
    ||| c == '\u{1680}'
    ||| ('\u{2000}' <= c && c <= '\u{200a}')
    ||| c == '\u{2028}'
    ||| c == '\u{2029}'
    ||| c == '\u{202f}'
    ||| c == '\u{205f}'
    ||| c == '\u{3000}'
}

/// Index of the first non-whitespace character at or after `i` (or `s.len()`).
pub open spec fn lead_from(s: Seq<char>, i: int) -> int
    decreases s.len() - i,
{
    if 0 <= i < s.len() && is_ws(s[i]) {
        lead_from(s, i + 1)
    } else {
        i
    }
}

/// End of the text once trailing whitespace before position `j` is dropped.
pub open spec fn trail_to(s: Seq<char>, j: int) -> int
    decreases j,
{
    if 0 < j <= s.len() && is_ws(s[j - 1]) {
        trail_to(s, j - 1)
    } else {
        j
    }
}

/// The text of an optional string.
pub open spec fn opt_view(o: Option<String>) -> Option<Seq<char>> {
    match o {
        Some(s) => Some(s@),
        None => None,
    }
}

/// The view of an optional text slice.
pub open spec fn opt_str_view(o: Option<&str>) -> Option<Seq<char>> {
    match o {
        Some(s) => Some(s@),
        None => None,
    }
}

/// `str::trim_start`.
pub open spec fn trim_start(s: Seq<char>) -> Seq<char> {
    s.skip(lead_from(s, 0))
}

/// `str::trim_end`.
pub open spec fn trim_end(s: Seq<char>) -> Seq<char> {
    s.take(trail_to(s, s.len() as int))
}

/// `str::trim`.
pub open spec fn trim(s: Seq<char>) -> Seq<char> {
    trim_end(trim_start(s))
}

/// `s` begins with `p`.
pub open spec fn starts_with(s: Seq<char>, p: Seq<char>) -> bool {
    p.len() <= s.len() && s.take(p.len() as int) == p
}

/// `s` ends with `p`.
pub open spec fn ends_with(s: Seq<char>, p: Seq<char>) -> bool {
    p.len() <= s.len() && s.skip(s.len() - p.len()) == p
}

/// The first position at or after `i` where `n` occurs in `h`.
pub open spec fn find_from(h: Seq<char>, n: Seq<char>, i: int) -> Option<int>
    decreases h.len() - i,
{
    if i < 0 || i + n.len() > h.len() {
        None
    } else if h.subrange(i, i + n.len()) == n {
        Some(i)
    } else if i < h.len() {
        find_from(h, n, i + 1)
    } else {
        None
    }
}

/// `str::find` with a string needle: the first position where `n` occurs.
pub open spec fn find(h: Seq<char>, n: Seq<char>) -> Option<int> {
    find_from(h, n, 0)
}

/// `str::contains` with a string needle.
pub open spec fn contains(h: Seq<char>, n: Seq<char>) -> bool {
    find(h, n) is Some
}

/// The last position before `j` that holds `c`.
pub open spec fn rfind_before(s: Seq<char>, c: char, j: int) -> Option<int>
    decreases j,
{
    if j <= 0 || j > s.len() {
        None
    } else if s[j - 1] == c {
        Some(j - 1)
    } else {
        rfind_before(s, c, j - 1)
    }
}

/// `str::rfind` with a character needle.
pub open spec fn rfind_char(s: Seq<char>, c: char) -> Option<int> {
    rfind_before(s, c, s.len() as int)
}

/// `str::find` with a character needle.
pub open spec fn find_char(s: Seq<char>, c: char) -> Option<int> {
    find(s, seq![c])
}

/// `lead_from` never moves backwards and stops inside the text.
pub proof fn lemma_lead_from_bounds(s: Seq<char>, i: int)
    requires
        0 <= i <= s.len(),
    ensures
        i <= lead_from(s, i) <= s.len(),
        forall|k: int| i <= k < lead_from(s, i) ==> is_ws(#[trigger] s[k]),
        lead_from(s, i) < s.len() ==> !is_ws(s[lead_from(s, i)]),
    decreases s.len() - i,
{
    if i < s.len() && is_ws(s[i]) {
        lemma_lead_from_bounds(s, i + 1);
    }
}

/// `trail_to` never moves forwards and stays inside the text.
pub proof fn lemma_trail_to_bounds(s: Seq<char>, j: int)
    requires
        0 <= j <= s.len(),
    ensures
        0 <= trail_to(s, j) <= j,
        forall|k: int| trail_to(s, j) <= k < j ==> is_ws(#[trigger] s[k]),
        trail_to(s, j) > 0 ==> !is_ws(s[trail_to(s, j) - 1]),
    decreases j,
{
    if j > 0 && is_ws(s[j - 1]) {
        lemma_trail_to_bounds(s, j - 1);
    }
}

/// A match found by `find_from` is in range and really is an occurrence.
pub proof fn lemma_find_from_found(h: Seq<char>, n: Seq<char>, i: int)
    requires
        0 <= i,
    ensures
        find_from(h, n, i) matches Some(p) ==> i <= p && p + n.len() <= h.len() && h.subrange(p, p + n.len()) == n,
        find_from(h, n, i) matches Some(p) ==> forall|k: int| i <= k < p ==> #[trigger] h.subrange(k, k + n.len()) != n,
        find_from(h, n, i) is None ==> forall|k: int| i <= k && k + n.len() <= h.len() ==> #[trigger] h.subrange(k, k + n.len()) != n,
    decreases h.len() - i,
{
    if i + n.len() > h.len() {
    } else if h.subrange(i, i + n.len()) == n {
    } else if i < h.len() {
        lemma_find_from_found(h, n, i + 1);
    } else {
        assert(h.subrange(i, i + n.len()) =~= n);
    }
}

/// A position found by `rfind_before` lies before `j` and holds `c`.
pub proof fn lemma_rfind_before_bounds(s: Seq<char>, c: char, j: int)
    ensures
        rfind_before(s, c, j) matches Some(p) ==> 0 <= p < j && p < s.len() && s[p] == c,
    decreases j,
{
    if j <= 0 || j > s.len() {
    } else if s[j - 1] == c {
    } else {
        lemma_rfind_before_bounds(s, c, j - 1);
    }
}

/// Text without an occurrence of `n` keeps none in any prefix.
pub proof fn lemma_prefix_keeps_absence(h: Seq<char>, n: Seq<char>, len: int)
    requires
        0 <= len <= h.len(),
        forall|k: int| 0 <= k && k + n.len() <= len ==> #[trigger] h.subrange(k, k + n.len()) != n,
    ensures
        !contains(h.take(len), n),
{
    let x = h.take(len);
    lemma_find_from_found(x, n, 0);
    if let Some(k) = find_from(x, n, 0) {
        assert(x.subrange(k, k + n.len()) == h.subrange(k, k + n.len()));
    }
}

/// `String::push`.
#[verifier::external_body]
pub fn push_char(s: &mut String, c: char)
    ensures
        final(s)@ == old(s)@.push(c),
{
    s.push(c);
}

/// The characters of a string slice.
pub fn chars_of(s: &str) -> (r: Vec<char>)
    ensures
        r@ == s@,
{
    let mut r: Vec<char> = Vec::new();
    for c in it: s.chars()
        invariant
            it.seq() == s@,
            r@ == it.seq().take(it.index() as int),
    {
        r.push(c);
    }
    r
}

/// A string holding exactly the given characters.
pub fn string_of(v: &[char]) -> (r: String)
    ensures
        r@ == v@,
{
    let mut r = String::new();
    let mut i: usize = 0;
    while i < v.len()
        invariant
            i <= v@.len(),
            r@ == v@.take(i as int),
        decreases v@.len() - i,
    {
        push_char(&mut r, v[i]);
        i += 1;
        assert(v@.take(i as int) == v@.take(i - 1).push(v@[i - 1]));
    }
    assert(v@.take(v@.len() as int) == v@);
    r
}

/// Appends characters to a string.
pub fn push_chars(out: &mut String, v: &[char])
    ensures
        final(out)@ == old(out)@ + v@,
{
    let ghost start = out@;
    let mut i: usize = 0;
    while i < v.len()
        invariant
            i <= v@.len(),
            out@ == start + v@.take(i as int),
        decreases v@.len() - i,
    {
        push_char(out, v[i]);
        i += 1;
        assert(v@.take(i as int) == v@.take(i - 1).push(v@[i - 1]));
    }
    assert(v@.take(v@.len() as int) == v@);
}

/// Appends a string slice to a character buffer.
pub fn extend_chars(out: &mut Vec<char>, s: &str)
    ensures
        final(out)@ == old(out)@ + s@,
{
    let mut cs = chars_of(s);
    out.append(&mut cs);
}

/// `char::is_whitespace`.
pub fn is_whitespace(c: char) -> (r: bool)
    ensures
        r == is_ws(c),
{
    ('\u{9}' <= c && c <= '\u{d}') || c == ' ' || c == '\u{85}' || c == '\u{a0}' || c == '\u{1680}'
        || ('\u{2000}' <= c && c <= '\u{200a}') || c == '\u{2028}' || c == '\u{2029}' || c
        == '\u{202f}' || c == '\u{205f}' || c == '\u{3000}'
}

/// A copy of `v[from..to]`.
pub fn sub_chars(v: &[char], from: usize, to: usize) -> (r: Vec<char>)
    requires
        from <= to <= v@.len(),
    ensures
        r@ == v@.subrange(from as int, to as int),
{
    let mut r: Vec<char> = Vec::new();
    let mut i = from;
    while i < to
        invariant
            from <= i <= to <= v@.len(),
            r@ == v@.subrange(from as int, i as int),
        decreases to - i,
    {
        r.push(v[i]);
        i += 1;
        assert(v@.subrange(from as int, i as int) == v@.subrange(from as int, i - 1).push(v@[i - 1]));
    }
    r
}

/// Position of the first non-whitespace character.
pub fn lead_index(v: &[char]) -> (r: usize)
    ensures
        r == lead_from(v@, 0),
{
    let mut i: usize = 0;
    while i < v.len() && is_whitespace(v[i])
        invariant
            i <= v@.len(),
            lead_from(v@, 0) == lead_from(v@, i as int),
        decreases v@.len() - i,
    {
        i += 1;
    }
    i
}

/// End position once trailing whitespace is dropped.
pub fn trail_index(v: &[char]) -> (r: usize)
    ensures
        r == trail_to(v@, v@.len() as int),
{
    let mut j: usize = v.len();
    while j > 0 && is_whitespace(v[j - 1])
        invariant
            j <= v@.len(),
            trail_to(v@, v@.len() as int) == trail_to(v@, j as int),
        decreases j,
    {
        j -= 1;
    }
    j
}

/// `str::trim_start` on a character buffer.
pub fn trim_start_chars(v: &[char]) -> (r: Vec<char>)
    ensures
        r@ == trim_start(v@),
{
    let i = lead_index(v);
    proof {
        lemma_lead_from_bounds(v@, 0);
    }
    sub_chars(v, i, v.len())
}

/// `str::trim_end` on a character buffer.
pub fn trim_end_chars(v: &[char]) -> (r: Vec<char>)
    ensures
        r@ == trim_end(v@),
{
    let j = trail_index(v);
    proof {
        lemma_trail_to_bounds(v@, v@.len() as int);
    }
    sub_chars(v, 0, j)
}

/// `str::trim` on a character buffer.
pub fn trim_chars(v: &[char]) -> (r: Vec<char>)
    ensures
        r@ == trim(v@),
{
    let s = trim_start_chars(v);
    trim_end_chars(&s)
}

/// Whether `n` occurs in `h` at position `i`.
pub fn matches_at(h: &[char], n: &[char], i: usize) -> (r: bool)
    requires
        i <= h@.len(),
    ensures
        r == (i + n@.len() <= h@.len() && h@.subrange(i as int, i + n@.len()) == n@),
{
    if n.len() > h.len() - i {
        return false;
    }
    let mut k: usize = 0;
    while k < n.len()
        invariant
            k <= n@.len(),
            i + n@.len() <= h@.len(),
            h@.len() == h.len(),
            n@.len() == n.len(),
            forall|t: int| 0 <= t < k ==> h@[i + t] == n@[t],
        decreases n@.len() - k,
    {
        if h[i + k] != n[k] {
            assert(h@.subrange(i as int, i + n@.len())[k as int] != n@[k as int]);
            return false;
        }
        k += 1;
    }
    assert(h@.subrange(i as int, i + n@.len()) =~= n@);
    true
}

/// `str::find` with a string needle.
pub fn find_chars(h: &[char], n: &[char]) -> (r: Option<usize>)
    ensures
        r matches Some(p) ==> find(h@, n@) == Some(p as int),
        r is None ==> find(h@, n@) is None,
{
    let mut i: usize = 0;
    while i <= h.len()
        invariant
            i <= h@.len() + 1,
            find_from(h@, n@, 0) == find_from(h@, n@, i as int),
        decreases h@.len() + 1 - i,
    {
        if n.len() > h.len() - i {
            return None;
        }
        if matches_at(h, n, i) {
            return Some(i);
        }
        if i == h.len() {
            return None;
        }
        i += 1;
    }
    None
}

/// `str::contains` with a string needle.
pub fn contains_chars(h: &[char], n: &[char]) -> (r: bool)
    ensures
        r == contains(h@, n@),
{
    find_chars(h, n).is_some()
}

/// `str::starts_with`.
pub fn starts_with_chars(s: &[char], p: &[char]) -> (r: bool)
    ensures
        r == starts_with(s@, p@),
{
    if p.len() > s.len() {
        return false;
    }
    let b = matches_at(s, p, 0);
    proof {
        assert(s@.subrange(0, p@.len() as int) == s@.take(p@.len() as int));
    }
    b
}

/// `str::ends_with`.
pub fn ends_with_chars(s: &[char], p: &[char]) -> (r: bool)
    ensures
        r == ends_with(s@, p@),
{
    if p.len() > s.len() {
        return false;
    }
    let b = matches_at(s, p, s.len() - p.len());
    proof {
        assert(s@.subrange(s@.len() - p@.len(), s@.len() as int) == s@.skip(s@.len() - p@.len()));
    }
    b
}

/// `str::rfind` with a character needle.
pub fn rfind_char_in(s: &[char], c: char) -> (r: Option<usize>)
    ensures
        r matches Some(p) ==> rfind_char(s@, c) == Some(p as int),
        r is None ==> rfind_char(s@, c) is None,
{
    let mut j: usize = s.len();
    while j > 0
        invariant
            j <= s@.len(),
            rfind_char(s@, c) == rfind_before(s@, c, j as int),
        decreases j,
    {
        if s[j - 1] == c {
            return Some(j - 1);
        }
        j -= 1;
    }
    None
}

/// `str::find` with a character needle.
pub fn find_char_in(s: &[char], c: char) -> (r: Option<usize>)
    ensures
        r matches Some(p) ==> find_char(s@, c) == Some(p as int),
        r is None ==> find_char(s@, c) is None,
{
    let n = vec![c];
    proof {
        assert(n@ == seq![c]);
    }
    find_chars(s, &n)
}

/// Equality of two character buffers.
pub fn chars_eq(a: &[char], b: &[char]) -> (r: bool)
    ensures
        r == (a@ == b@),
{
    if a.len() != b.len() {
        return false;
    }
    let r = matches_at(a, b, 0);
    proof {
        assert(a@.subrange(0, a@.len() as int) == a@);
    }
    r
}

/// Equality of two string slices.
pub fn str_eq(a: &str, b: &str) -> (r: bool)
    ensures
        r == (a@ == b@),
{
    let x = chars_of(a);
    let y = chars_of(b);
    chars_eq(&x, &y)
}

/// A fresh string built from a literal.
pub fn owned(s: &str) -> (r: String)
    ensures
        r@ == s@,
{
    String::from_str(s)
}

/// `parts.join(sep)`.
pub open spec fn join(parts: Seq<Seq<char>>, sep: Seq<char>) -> Seq<char>
    decreases parts.len(),
{
    if parts.len() == 0 {
        Seq::empty()
    } else if parts.len() == 1 {
        parts[0]
    } else {
        join(parts.drop_last(), sep) + sep + parts.last()
    }
}

/// Number of non-whitespace characters.
pub open spec fn nonws_count(s: Seq<char>) -> nat
    decreases s.len(),
{
    if s.len() == 0 {
        0
    } else {
        nonws_count(s.drop_last()) + if is_ws(s.last()) {
            0nat
        } else {
            1nat
        }
    }
}

/// The decimal digit `d` (0 to 9).
pub open spec fn digit(d: nat) -> char {
    if d == 0 {
        '0'
    } else if d == 1 {
        '1'
    } else if d == 2 {
        '2'
    } else if d == 3 {
        '3'
    } else if d == 4 {
        '4'
    } else if d == 5 {
        '5'
    } else if d == 6 {
        '6'
    } else if d == 7 {
        '7'
    } else if d == 8 {
        '8'
    } else {
        '9'
    }
}

/// Decimal text of a natural number (`usize::to_string`).
pub open spec fn decimal(n: nat) -> Seq<char>
    decreases n,
{
    if n < 10 {
        seq![digit(n)]
    } else {
        decimal(n / 10).push(digit(n % 10))
    }
}

/// Counts never exceed the length.
pub proof fn lemma_nonws_count_le(s: Seq<char>)
    ensures
        nonws_count(s) <= s.len(),
    decreases s.len(),
{
    if s.len() > 0 {
        lemma_nonws_count_le(s.drop_last());
    }
}

/// Number of non-whitespace characters.
pub fn count_nonws(v: &[char]) -> (r: usize)
    ensures
        r == nonws_count(v@),
{
    let mut n: usize = 0;
    let mut i: usize = 0;
    while i < v.len()
        invariant
            i <= v@.len(),
            n == nonws_count(v@.take(i as int)),
            n <= i,
        decreases v@.len() - i,
    {
        proof {
            assert(v@.take(i + 1).drop_last() == v@.take(i as int));
        }
        if !is_whitespace(v[i]) {
            n += 1;
        }
        i += 1;
    }
    assert(v@.take(v@.len() as int) == v@);
    n
}

fn digit_char(d: u64) -> (c: char)
    requires
        d < 10,
    ensures
        c == digit(d as nat),
{
    if d == 0 {
        '0'
    } else if d == 1 {
        '1'
    } else if d == 2 {
        '2'
    } else if d == 3 {
        '3'
    } else if d == 4 {
        '4'
    } else if d == 5 {
        '5'
    } else if d == 6 {
        '6'
    } else if d == 7 {
        '7'
    } else if d == 8 {
        '8'
    } else {
        '9'
    }
}

/// Appends the decimal text of `n`.
pub fn push_decimal(out: &mut Vec<char>, n: u64)
    ensures
        final(out)@ == old(out)@ + decimal(n as nat),
    decreases n,
{
    if n >= 10 {
        push_decimal(out, n / 10);
    }
    out.push(digit_char(n % 10));
    proof {
        if n < 10 {
            assert(old(out)@ + decimal(n as nat) == old(out)@.push(digit(n as nat)));
        } else {
            assert(old(out)@ + decimal(n as nat) == (old(out)@ + decimal((n / 10) as nat)).push(
                digit((n % 10) as nat),
            ));
        }
    }
}

/// Decimal text of an integer (`i64::to_string`): a minus sign before the
/// magnitude of a negative number.
pub open spec fn signed_decimal(v: int) -> Seq<char> {
    if v < 0 {
        seq!['-'] + decimal((-v) as nat)
    } else {
        decimal(v as nat)
    }
}

/// Appends the decimal text of a signed integer.
pub fn push_signed_decimal(out: &mut Vec<char>, v: i64)
    ensures
        final(out)@ == old(out)@ + signed_decimal(v as int),
{
    if v < 0 {
        out.push('-');
        let m: u64 = (-(v as i128)) as u64;
        let ghost mid = out@;
        push_decimal(out, m);
        assert(out@ == old(out)@ + signed_decimal(v as int));
    } else {
        push_decimal(out, v as u64);
    }
}

/// Joins strings with a separator into a character buffer.
pub fn join_strings(parts: &[String], sep: &str) -> (r: Vec<char>)
    ensures
        r@ == join(parts@.map_values(|p: String| p@), sep@),
{
    let ghost views = parts@.map_values(|p: String| p@);
    let mut r: Vec<char> = Vec::new();
    let mut i: usize = 0;
    while i < parts.len()
        invariant
            i <= parts@.len(),
            views == parts@.map_values(|p: String| p@),
            r@ == join(views.take(i as int), sep@),
        decreases parts@.len() - i,
    {
        proof {
            assert(views.take(i + 1).drop_last() == views.take(i as int));
            assert(views.take(i + 1).last() == parts@[i as int]@);
        }
        if i > 0 {
            extend_chars(&mut r, sep);
        }
        extend_chars(&mut r, parts[i].as_str());
        i += 1;
    }
    assert(views.take(parts@.len() as int) == views);
    r
}

/// Joins character buffers with a separator.
pub fn join_lines(parts: &Vec<Vec<char>>, sep: &str) -> (r: Vec<char>)
    ensures
        r@ == join(parts@.map_values(|p: Vec<char>| p@), sep@),
{
    let ghost views = parts@.map_values(|p: Vec<char>| p@);
    let mut r: Vec<char> = Vec::new();
    let mut i: usize = 0;
    while i < parts.len()
        invariant
            i <= parts@.len(),
            views == parts@.map_values(|p: Vec<char>| p@),
            r@ == join(views.take(i as int), sep@),
        decreases parts@.len() - i,
    {
        proof {
            assert(views.take(i + 1).drop_last() == views.take(i as int));
            assert(views.take(i + 1).last() == parts@[i as int]@);
        }
        if i > 0 {
            extend_chars(&mut r, sep);
        }
        let p = &parts[i];
        let mut i2: usize = 0;
        let ghost before = r@;
        while i2 < p.len()
            invariant
                i2 <= p@.len(),
                r@ == before + p@.take(i2 as int),
            decreases p@.len() - i2,
        {
            r.push(p[i2]);
            i2 += 1;
            assert(p@.take(i2 as int) == p@.take(i2 - 1).push(p@[i2 - 1]));
        }
        assert(p@.take(p@.len() as int) == p@);
        i += 1;
    }
    assert(views.take(parts@.len() as int) == views);
    r
}

/// Byte length of a character in UTF-8.
pub open spec fn utf8_len(c: char) -> nat {
    if (c as u32) < 0x80 {
        1
    } else if (c as u32) < 0x800 {
        2
    } else if (c as u32) < 0x10000 {
        3
    } else {
        4
    }
}

/// Byte length of a text in UTF-8.
pub open spec fn bytes_len(s: Seq<char>) -> nat
    decreases s.len(),
{
    if s.len() == 0 {
        0
    } else {
        utf8_len(s[0]) + bytes_len(s.skip(1))
    }
}

/// The UTF-8 byte length of a character.
pub fn char_bytes(c: char) -> (n: u128)
    ensures
        n == utf8_len(c),
{
    let u = c as u32;
    if u < 0x80 {
        1
    } else if u < 0x800 {
        2
    } else if u < 0x10000 {
        3
    } else {
        4
    }
}

/// The UTF-8 byte length of the characters from `pos` on.
pub fn bytes_from(c: &Vec<char>, pos: usize) -> (n: u128)
    requires
        pos <= c@.len(),
    ensures
        n == bytes_len(c@.skip(pos as int)),
{
    let mut n: u128 = 0;
    let mut j: usize = pos;
    while j < c.len()
        invariant
            pos <= j <= c@.len(),
            n <= 4 * (j - pos),
            bytes_len(c@.skip(pos as int)) == n + bytes_len(c@.skip(j as int)),
        decreases c@.len() - j,
    {
        assert(c@.skip(j as int).skip(1) =~= c@.skip(j + 1));
        assert(c@.skip(j as int)[0] == c@[j as int]);
        n = n + char_bytes(c[j]);
        j += 1;
    }
    assert(c@.skip(j as int).len() == 0);
    n
}

/// Lexicographic order of texts by code point (the order of `String`'s `Ord`,
/// which compares UTF-8 bytes and thus agrees with code point order).
pub open spec fn text_lt(a: Seq<char>, b: Seq<char>) -> bool
    decreases a.len(),
{
    if a.len() == 0 {
        b.len() > 0
    } else if b.len() == 0 {
        false
    } else if a[0] != b[0] {
        a[0] < b[0]
    } else {
        text_lt(a.skip(1), b.skip(1))
    }
}

/// `text_lt` is a strict total order.
pub proof fn lemma_text_lt_total(a: Seq<char>, b: Seq<char>)
    ensures
        !text_lt(a, a),
        a == b || text_lt(a, b) || text_lt(b, a),
        !(text_lt(a, b) && text_lt(b, a)),
    decreases a.len(),
{
    if a.len() > 0 {
        lemma_text_lt_total(a.skip(1), a.skip(1));
        if b.len() > 0 {
            lemma_text_lt_total(a.skip(1), b.skip(1));
            if a[0] == b[0] && a.skip(1) == b.skip(1) {
                assert(a =~= seq![a[0]] + a.skip(1));
                assert(b =~= seq![b[0]] + b.skip(1));
                assert(a =~= b);
            }
        }
    } else if b.len() == 0 {
        assert(a =~= b);
    }
}

/// `text_lt` is transitive.
pub proof fn lemma_text_lt_trans(a: Seq<char>, b: Seq<char>, c: Seq<char>)
    requires
        text_lt(a, b),
        text_lt(b, c),
    ensures
        text_lt(a, c),
    decreases a.len(),
{
    if a.len() > 0 && b.len() > 0 && c.len() > 0 && a[0] == b[0] && b[0] == c[0] {
        lemma_text_lt_trans(a.skip(1), b.skip(1), c.skip(1));
    }
}

/// Compares two texts in code point order.
pub fn text_less(a: &[char], b: &[char]) -> (r: bool)
    ensures
        r == text_lt(a@, b@),
{
    let mut i: usize = 0;
    assert(a@.skip(0) =~= a@);
    assert(b@.skip(0) =~= b@);
    while i < a.len() && i < b.len() && a[i] == b[i]
        invariant
            i <= a@.len(),
            i <= b@.len(),
            text_lt(a@, b@) == text_lt(a@.skip(i as int), b@.skip(i as int)),
        decreases a@.len() - i,
    {
        assert(a@.skip(i as int).skip(1) =~= a@.skip(i + 1));
        assert(b@.skip(i as int).skip(1) =~= b@.skip(i + 1));
        assert(a@.skip(i as int)[0] == a@[i as int]);
        assert(b@.skip(i as int)[0] == b@[i as int]);
        i += 1;
    }
    if i < a.len() && i < b.len() {
        assert(a@.skip(i as int)[0] == a@[i as int]);
        assert(b@.skip(i as int)[0] == b@[i as int]);
        a[i] < b[i]
    } else {
        i < b.len()
    }
}

/// Texts in strictly increasing order.
pub open spec fn strictly_sorted(s: Seq<Seq<char>>) -> bool {
    forall|a: int, b: int| 0 <= a < b < s.len() ==> text_lt(#[trigger] s[a], #[trigger] s[b])
}

/// The texts of strings.
pub open spec fn text_views(v: Seq<String>) -> Seq<Seq<char>> {
    v.map_values(|x: String| x@)
}

/// The distinct texts in increasing order (`sort` of a set of strings).
pub fn sorted_unique(items: &[String]) -> (r: Vec<String>)
    ensures
        strictly_sorted(text_views(r@)),
        forall|t: Seq<char>| #[trigger] text_views(r@).contains(t) <==> text_views(items@).contains(t),
{
    let ghost iv = text_views(items@);
    let mut out: Vec<String> = Vec::new();
    let mut i: usize = 0;
    while i < items.len()
        invariant
            i <= items@.len(),
            iv == text_views(items@),
            strictly_sorted(text_views(out@)),
            forall|t: Seq<char>| #[trigger] text_views(out@).contains(t) <==> iv.take(i as int).contains(t),
        decreases items@.len() - i,
    {
        let ghost ov = text_views(out@);
        let x = chars_of(items[i].as_str());
        let mut p: usize = 0;
        while p < out.len() && text_less(&chars_of(out[p].as_str()), &x)
            invariant
                p <= out@.len(),
                ov == text_views(out@),
                forall|q: int| 0 <= q < p ==> text_lt(#[trigger] ov[q], x@),
            decreases out@.len() - p,
        {
            assert(ov[p as int] == out@[p as int]@);
            p += 1;
        }
        let pos = p;
        proof {
            if pos < out@.len() {
                assert(ov[pos as int] == out@[pos as int]@);
                assert(!text_lt(ov[pos as int], x@));
            }
        }
        let dup = if pos < out.len() {
            str_eq(out[pos].as_str(), items[i].as_str())
        } else {
            false
        };
        let ghost cur = iv.take(i as int);
        let ghost nxt = iv.take(i + 1);
        proof {
            assert(nxt =~= cur.push(iv[i as int]));
            assert(iv[i as int] == x@);
        }
        if !dup {
            let s = string_of(&x);
            out.insert(pos, s);
            proof {
                let nv = text_views(out@);
                assert(nv =~= ov.insert(pos as int, x@));
                assert forall|a: int, b: int| 0 <= a < b < nv.len() implies text_lt(#[trigger] nv[a], #[trigger] nv[b]) by {
                    if pos < ov.len() {
                        lemma_text_lt_total(ov[pos as int], x@);
                    }
                    if a < pos && b == pos {
                    } else if a == pos && b > pos {
                        if b - 1 > pos {
                            lemma_text_lt_total(ov[pos as int], x@);
                            lemma_text_lt_trans(x@, ov[pos as int], ov[b - 1]);
                        } else {
                            lemma_text_lt_total(ov[pos as int], x@);
                        }
                    } else if a < pos && b > pos {
                        assert(nv[a] == ov[a] && nv[b] == ov[b - 1]);
                    } else if b < pos {
                        assert(nv[a] == ov[a] && nv[b] == ov[b]);
                    } else {
                        assert(nv[a] == ov[a - 1] && nv[b] == ov[b - 1]);
                    }
                }
                assert forall|t: Seq<char>| #[trigger] nv.contains(t) <==> nxt.contains(t) by {
                    if nv.contains(t) {
                        let q = choose|q: int| 0 <= q < nv.len() && nv[q] == t;
                        if q != pos {
                            let q0 = if q < pos { q } else { q - 1 };
                            assert(ov[q0] == t);
                            assert(ov.contains(t));
                            assert(cur.contains(t));
                            let q1 = choose|q1: int| 0 <= q1 < cur.len() && cur[q1] == t;
                            assert(nxt[q1] == t);
                        } else {
                            assert(nxt[i as int] == t);
                        }
                    }
                    if nxt.contains(t) {
                        if t == x@ {
                            assert(nv[pos as int] == t);
                        } else {
                            assert(cur.contains(t)) by {
                                let q = choose|q: int| 0 <= q < nxt.len() && nxt[q] == t;
                                assert(q < i);
                                assert(cur[q] == t);
                            }
                            assert(ov.contains(t));
                            let q = choose|q: int| 0 <= q < ov.len() && ov[q] == t;
                            if q < pos {
                                assert(nv[q] == t);
                            } else {
                                assert(nv[q + 1] == t);
                            }
                        }
                    }
                }
            }
        } else {
            proof {
                assert(ov[pos as int] == x@);
                assert forall|t: Seq<char>| #[trigger] ov.contains(t) <==> nxt.contains(t) by {
                    if nxt.contains(t) && t != x@ {
                        let q = choose|q: int| 0 <= q < nxt.len() && nxt[q] == t;
                        assert(cur[q] == t);
                    }
                    if ov.contains(t) {
                        assert(cur.contains(t));
                        let q = choose|q: int| 0 <= q < cur.len() && cur[q] == t;
                        assert(nxt[q] == t);
                    }
                }
            }
        }
        i += 1;
    }
    assert(iv.take(items@.len() as int) =~= iv);
    out
}

} // verus!
