//! Verified text helpers over `char` sequences: comparison, search,
//! trimming, line splitting, joining, decimal formatting and UTF-8 byte
//! budgets.

use vstd::prelude::*;
use vstd::utf8::encode_utf8;

verus! {

/// The characters of `s`, in order.
pub fn chars_of(s: &str) -> (v: Vec<char>)
    ensures
        v@ == s@,
{
    let mut v: Vec<char> = Vec::new();
    for c in it: s.chars()
        invariant
            v@ == it.seq().take(it.index() as int),
            it.seq() == s@,
    {
        v.push(c);
    }
    v
}

/// Appends one character to a string (std `String::push`).
#[verifier::external_body]
pub(crate) fn push_char(s: &mut String, c: char)
    ensures
        final(s)@ == old(s)@.push(c),
{
    s.push(c);
}

/// Appends a string slice (std `String::push_str`).
#[verifier::external_body]
pub(crate) fn push_str(s: &mut String, t: &str)
    ensures
        final(s)@ == old(s)@ + t@,
{
    s.push_str(t);
}

/// An owned copy of a string slice.
pub fn owned(s: &str) -> (r: String)
    ensures
        r@ == s@,
{
    let mut r = String::new();
    push_str(&mut r, s);
    proof {
        assert(Seq::<char>::empty() + s@ =~= s@);
    }
    r
}

/// A string holding exactly the given characters.
pub fn string_of(v: &[char]) -> (r: String)
    ensures
        r@ == v@,
{
    let mut r = String::new();
    let mut i: usize = 0;
    while i < v.len()
        invariant
            i <= v@.len(),
            r@ == v@.take(i as int),
        decreases v@.len() - i,
    {
        push_char(&mut r, v[i]);
        proof {
            assert(v@.take(i + 1) =~= v@.take(i as int).push(v@[i as int]));
        }
        i = i + 1;
    }
    proof {
        assert(v@.take(v@.len() as int) =~= v@);
    }
    r
}

/// Appends the characters of `v` to `s`.
pub fn push_chars(s: &mut String, v: &[char])
    ensures
        final(s)@ == old(s)@ + v@,
{
    let mut i: usize = 0;
    while i < v.len()
        invariant
            i <= v@.len(),
            s@ == old(s)@ + v@.take(i as int),
        decreases v@.len() - i,
    {
        push_char(s, v[i]);
        proof {
            assert(v@.take(i + 1) =~= v@.take(i as int).push(v@[i as int]));
        }
        i = i + 1;
    }
    proof {
        assert(v@.take(v@.len() as int) =~= v@);
    }
}

/// Character sequence equality.
pub fn seq_eq(a: &[char], b: &[char]) -> (r: bool)
    ensures
        r == (a@ == b@),
{
    if a.len() != b.len() {
        return false;
    }
    let mut i: usize = 0;
    while i < a.len()
        invariant
            a@.len() == b@.len(),
            i <= a@.len(),
            forall|j: int| 0 <= j < i ==> a@[j] == b@[j],
        decreases a@.len() - i,
    {
        if a[i] != b[i] {
            return false;
        }
        i = i + 1;
    }
    proof {
        assert(a@ =~= b@);
    }
    true
}

/// String equality on contents.
pub fn str_eq(a: &str, b: &str) -> (r: bool)
    ensures
        r == (a@ == b@),
{
    let x = chars_of(a);
    let y = chars_of(b);
    seq_eq(&x, &y)
}

/// `p` is a prefix of `s`.
pub open spec fn is_prefix(p: Seq<char>, s: Seq<char>) -> bool {
    p.len() <= s.len() && s.take(p.len() as int) == p
}

/// `p` is a suffix of `s`.
pub open spec fn is_suffix(p: Seq<char>, s: Seq<char>) -> bool {
    p.len() <= s.len() && s.skip(s.len() - p.len()) == p
}

/// `p` occurs in `s` at position `i`.
pub open spec fn occurs_at(s: Seq<char>, p: Seq<char>, i: int) -> bool {
    0 <= i && i + p.len() <= s.len() && s.subrange(i, i + p.len()) == p
}

/// `p` occurs somewhere in `s`.
pub open spec fn has_sub(s: Seq<char>, p: Seq<char>) -> bool {
    exists|i: int| occurs_at(s, p, i)
}

/// Whether `p` occurs in `s` at position `at`.
pub fn matches_at(s: &[char], p: &[char], at: usize) -> (r: bool)
    ensures
        r == occurs_at(s@, p@, at as int),
{
    if at > s.len() || p.len() > s.len() - at {
        return false;
    }
    let mut j: usize = 0;
    while j < p.len()
        invariant
            at + p.len() <= s.len(),
            j <= p@.len(),
            forall|k: int| 0 <= k < j ==> s@[at + k] == p@[k],
        decreases p@.len() - j,
    {
        if s[at + j] != p[j] {
            proof {
                assert(s@.subrange(at as int, at + p@.len())[j as int] != p@[j as int]);
            }
            return false;
        }
        j = j + 1;
    }
    proof {
        assert(s@.subrange(at as int, at + p@.len()) =~= p@);
    }
    true
}

/// Prefix test.
pub fn starts_with(s: &str, p: &str) -> (r: bool)
    ensures
        r == is_prefix(p@, s@),
{
    let x = chars_of(s);
    let y = chars_of(p);
    let r = matches_at(&x, &y, 0);
    proof {
        if r {
            assert(s@.subrange(0, p@.len() as int) =~= s@.take(p@.len() as int));
        }
        if is_prefix(p@, s@) {
            assert(s@.subrange(0, p@.len() as int) =~= s@.take(p@.len() as int));
        }
    }
    r
}

/// Suffix test.
pub fn ends_with(s: &str, p: &str) -> (r: bool)
    ensures
        r == is_suffix(p@, s@),
{
    let x = chars_of(s);
    let y = chars_of(p);
    if y.len() > x.len() {
        return false;
    }
    let r = matches_at(&x, &y, x.len() - y.len());
    proof {
        assert(s@.subrange(s@.len() - p@.len(), s@.len() as int) =~= s@.skip(s@.len() - p@.len()));
    }
    r
}

/// Position of the first occurrence of `p` in `s`, if any.
pub fn find_sub(s: &[char], p: &[char]) -> (r: Option<usize>)
    ensures
        match r {
            Some(i) => occurs_at(s@, p@, i as int) && forall|j: int| 0 <= j < i ==> !occurs_at(s@, p@, j),
            None => !has_sub(s@, p@),
        },
{
    if p.len() > s.len() {
        proof {
            assert forall|i: int| !occurs_at(s@, p@, i) by {}
        }
        return None;
    }
    if p.len() == 0 {
        proof {
            assert(s@.subrange(0, 0) =~= p@);
        }
        return Some(0);
    }
    let mut i: usize = 0;
    while i <= s.len() - p.len()
        invariant
            1 <= p@.len() <= s@.len(),
            i <= s@.len() - p@.len() + 1,
            forall|j: int| 0 <= j < i ==> !occurs_at(s@, p@, j),
        decreases s@.len() - p@.len() + 1 - i,
    {
        if matches_at(s, p, i) {
            return Some(i);
        }
        i = i + 1;
    }
    proof {
        assert forall|j: int| !occurs_at(s@, p@, j) by {
            if 0 <= j < i {
            }
        }
    }
    None
}

/// Substring test.
pub fn contains(s: &str, p: &str) -> (r: bool)
    ensures
        r == has_sub(s@, p@),
{
    let x = chars_of(s);
    let y = chars_of(p);
    match find_sub(&x, &y) {
        Some(_) => true,
        None => false,
    }
}

/// Unicode `White_Space`, as `char::is_whitespace` defines it.
pub open spec fn is_ws(c: char) -> bool {
    let u = c as u32;
    ||| 0x9 <= u <= 0xD
    ||| u == 0x20
    ||| u == 0x85
    ||| u == 0xA0
    ||| u == 0x1680
    ||| 0x2000 <= u <= 0x200A
    ||| u == 0x2028
    ||| u == 0x2029
    ||| u == 0x202F
    ||| u == 0x205F
    ||| u == 0x3000
}

pub fn is_whitespace(c: char) -> (r: bool)
    ensures
        r == is_ws(c),
{
    let u = c as u32;
    (0x9 <= u && u <= 0xD) || u == 0x20 || u == 0x85 || u == 0xA0 || u == 0x1680 || (0x2000 <= u
        && u <= 0x200A) || u == 0x2028 || u == 0x2029 || u == 0x202F || u == 0x205F || u == 0x3000
}

/// `s` without leading whitespace.
pub open spec fn trim_start(s: Seq<char>) -> Seq<char>
    decreases s.len(),
{
    if s.len() > 0 && is_ws(s[0]) {
        trim_start(s.drop_first())
    } else {
        s
    }
}

/// `s` without trailing whitespace.
pub open spec fn trim_end(s: Seq<char>) -> Seq<char>
    decreases s.len(),
{
    if s.len() > 0 && is_ws(s.last()) {
        trim_end(s.drop_last())
    } else {
        s
    }
}

/// `s` without leading and trailing whitespace (`str::trim`).
pub open spec fn trim(s: Seq<char>) -> Seq<char> {
    trim_end(trim_start(s))
}

/// Leading-whitespace removal over a char vector.
pub fn trim_start_chars(v: &[char]) -> (r: Vec<char>)
    ensures
        r@ == trim_start(v@),
{
    let mut i: usize = 0;
    proof {
        assert(v@.skip(0) =~= v@);
    }
    while i < v.len() && is_whitespace(v[i])
        invariant
            i <= v@.len(),
            trim_start(v@) == trim_start(v@.skip(i as int)),
        decreases v@.len() - i,
    {
        proof {
            assert(v@.skip(i as int).drop_first() =~= v@.skip(i + 1));
        }
        i = i + 1;
    }
    let mut r: Vec<char> = Vec::new();
    let mut k: usize = i;
    while k < v.len()
        invariant
            i <= k <= v@.len(),
            r@ == v@.subrange(i as int, k as int),
        decreases v@.len() - k,
    {
        r.push(v[k]);
        proof {
            assert(v@.subrange(i as int, k + 1) =~= v@.subrange(i as int, k as int).push(v@[k as int]));
        }
        k = k + 1;
    }
    proof {
        assert(v@.subrange(i as int, v@.len() as int) =~= v@.skip(i as int));
    }
    r
}

/// Trailing-whitespace removal over a char vector.
pub fn trim_end_chars(v: &[char]) -> (r: Vec<char>)
    ensures
        r@ == trim_end(v@),
{
    let mut n: usize = v.len();
    proof {
        assert(v@.take(v@.len() as int) =~= v@);
    }
    while n > 0 && is_whitespace(v[n - 1])
        invariant
            n <= v@.len(),
            trim_end(v@) == trim_end(v@.take(n as int)),
        decreases n,
    {
        proof {
            assert(v@.take(n as int).drop_last() =~= v@.take(n - 1));
        }
        n = n - 1;
    }
    let mut r: Vec<char> = Vec::new();
    let mut k: usize = 0;
    while k < n
        invariant
            k <= n <= v@.len(),
            r@ == v@.take(k as int),
        decreases n - k,
    {
        r.push(v[k]);
        proof {
            assert(v@.take(k + 1) =~= v@.take(k as int).push(v@[k as int]));
        }
        k = k + 1;
    }
    r
}

/// `str::trim` as characters.
pub fn trim_chars(s: &str) -> (r: Vec<char>)
    ensures
        r@ == trim(s@),
{
    let v = chars_of(s);
    let a = trim_start_chars(&v);
    trim_end_chars(&a)
}

/// `str::trim` as an owned string.
pub fn trimmed(s: &str) -> (r: String)
    ensures
        r@ == trim(s@),
{
    let v = trim_chars(s);
    string_of(&v)
}

/// The line being built and the lines completed so far, scanning left to right.
pub open spec fn lines_acc(s: Seq<char>) -> (Seq<Seq<char>>, Seq<char>)
    decreases s.len(),
{
    if s.len() == 0 {
        (Seq::empty(), Seq::empty())
    } else {
        let (done, cur) = lines_acc(s.drop_last());
        if s.last() == '\n' {
            (done.push(strip_cr(cur)), Seq::empty())
        } else {
            (done, cur.push(s.last()))
        }
    }
}

/// A completed line loses one trailing carriage return.
pub open spec fn strip_cr(cur: Seq<char>) -> Seq<char> {
    if cur.len() > 0 && cur.last() == '\r' {
        cur.drop_last()
    } else {
        cur
    }
}

/// The lines of `s` (`str::lines`): split at `\n`, a `\r` before it removed,
/// no empty line after a final line break.
pub open spec fn lines(s: Seq<char>) -> Seq<Seq<char>> {
    let (done, cur) = lines_acc(s);
    if cur.len() == 0 {
        done
    } else {
        done.push(cur)
    }
}

fn strip_cr_vec(cur: Vec<char>) -> (r: Vec<char>)
    ensures
        r@ == strip_cr(cur@),
{
    let mut cur = cur;
    if cur.len() > 0 && cur[cur.len() - 1] == '\r' {
        cur.pop();
    }
    cur
}

/// The lines of `s`, each as a character vector.
pub fn lines_of(s: &str) -> (r: Vec<Vec<char>>)
    ensures
        r@.len() == lines(s@).len(),
        forall|i: int| 0 <= i < r@.len() ==> #[trigger] r@[i]@ == lines(s@)[i],
{
    let v = chars_of(s);
    let mut done: Vec<Vec<char>> = Vec::new();
    let mut cur: Vec<char> = Vec::new();
    let mut i: usize = 0;
    while i < v.len()
        invariant
            i <= v@.len(),
            v@ == s@,
            done@.len() == lines_acc(v@.take(i as int)).0.len(),
            forall|k: int| 0 <= k < done@.len() ==> #[trigger] done@[k]@ == lines_acc(v@.take(i as int)).0[k],
            cur@ == lines_acc(v@.take(i as int)).1,
        decreases v@.len() - i,
    {
        proof {
            assert(v@.take(i + 1).drop_last() =~= v@.take(i as int));
        }
        if v[i] == '\n' {
            let line = strip_cr_vec(cur);
            done.push(line);
            cur = Vec::new();
        } else {
            cur.push(v[i]);
        }
        i = i + 1;
    }
    proof {
        assert(v@.take(v@.len() as int) =~= v@);
    }
    if cur.len() > 0 {
        done.push(cur);
    }
    done
}

/// Number of lines of `s`.
pub fn line_count(s: &str) -> (r: usize)
    ensures
        r == lines(s@).len(),
{
    let l = lines_of(s);
    l.len()
}

/// `parts` joined with `sep` between neighbours.
pub open spec fn join(parts: Seq<Seq<char>>, sep: Seq<char>) -> Seq<char>
    decreases parts.len(),
{
    if parts.len() == 0 {
        Seq::empty()
    } else if parts.len() == 1 {
        parts[0]
    } else {
        join(parts.drop_last(), sep) + sep + parts.last()
    }
}

/// The views of a list of strings.
pub open spec fn strs(v: Seq<String>) -> Seq<Seq<char>> {
    v.map_values(|s: String| s@)
}

/// The views of a list of char vectors.
pub open spec fn vecs(v: Seq<Vec<char>>) -> Seq<Seq<char>> {
    v.map_values(|s: Vec<char>| s@)
}

/// `parts` joined with `sep`.
pub fn join_strings(parts: &[String], sep: &str) -> (r: String)
    ensures
        r@ == join(strs(parts@), sep@),
{
    let mut r = String::new();
    let mut i: usize = 0;
    while i < parts.len()
        invariant
            i <= parts@.len(),
            r@ == join(strs(parts@.take(i as int)), sep@),
        decreases parts@.len() - i,
    {
        proof {
            assert(strs(parts@.take(i + 1)).drop_last() =~= strs(parts@.take(i as int)));
            assert(strs(parts@.take(i + 1)).last() == parts@[i as int]@);
        }
        if i > 0 {
            push_str(&mut r, sep);
        }
        push_str(&mut r, parts[i].as_str());
        proof {
            if i == 0 {
                assert(Seq::<char>::empty() + parts@[0]@ =~= parts@[0]@);
            }
        }
        i = i + 1;
    }
    proof {
        assert(parts@.take(parts@.len() as int) =~= parts@);
    }
    r
}

/// Char vectors joined with `sep`.
pub fn join_vecs(parts: &[Vec<char>], sep: &str) -> (r: String)
    ensures
        r@ == join(vecs(parts@), sep@),
{
    let mut r = String::new();
    let mut i: usize = 0;
    while i < parts.len()
        invariant
            i <= parts@.len(),
            r@ == join(vecs(parts@.take(i as int)), sep@),
        decreases parts@.len() - i,
    {
        proof {
            assert(vecs(parts@.take(i + 1)).drop_last() =~= vecs(parts@.take(i as int)));
            assert(vecs(parts@.take(i + 1)).last() == parts@[i as int]@);
        }
        if i > 0 {
            push_str(&mut r, sep);
        }
        push_chars(&mut r, parts[i].as_slice());
        proof {
            if i == 0 {
                assert(Seq::<char>::empty() + parts@[0]@ =~= parts@[0]@);
            }
        }
        i = i + 1;
    }
    proof {
        assert(parts@.take(parts@.len() as int) =~= parts@);
    }
    r
}

/// The decimal digit for `d < 10`.
pub open spec fn digit(d: nat) -> char {
    if d == 0 {
        '0'
    } else if d == 1 {
        '1'
    } else if d == 2 {
        '2'
    } else if d == 3 {
        '3'
    } else if d == 4 {
        '4'
    } else if d == 5 {
        '5'
    } else if d == 6 {
        '6'
    } else if d == 7 {
        '7'
    } else if d == 8 {
        '8'
    } else {
        '9'
    }
}

/// Decimal notation of `n` (as `Display` prints integers).
pub open spec fn dec(n: nat) -> Seq<char>
    decreases n,
{
    if n < 10 {
        seq![digit(n)]
    } else {
        dec(n / 10).push(digit(n % 10))
    }
}

fn digit_char(d: u64) -> (c: char)
    requires
        d < 10,
    ensures
        c == digit(d as nat),
{
    if d == 0 {
        '0'
    } else if d == 1 {
        '1'
    } else if d == 2 {
        '2'
    } else if d == 3 {
        '3'
    } else if d == 4 {
        '4'
    } else if d == 5 {
        '5'
    } else if d == 6 {
        '6'
    } else if d == 7 {
        '7'
    } else if d == 8 {
        '8'
    } else {
        '9'
    }
}

/// Appends the decimal notation of `n`.
pub fn push_dec(s: &mut String, n: u64)
    ensures
        final(s)@ == old(s)@ + dec(n as nat),
    decreases n,
{
    if n >= 10 {
        push_dec(s, n / 10);
        push_char(s, digit_char(n % 10));
        proof {
            assert(old(s)@ + dec(n as nat) =~= old(s)@ + dec((n / 10) as nat) + seq![digit((n % 10) as nat)]);
        }
    } else {
        push_char(s, digit_char(n));
        proof {
            assert(old(s)@ + dec(n as nat) =~= old(s)@.push(digit(n as nat)));
        }
    }
}

/// Appends the decimal notation of a `usize`.
pub fn push_usize(s: &mut String, n: usize)
    ensures
        final(s)@ == old(s)@ + dec(n as nat),
{
    push_dec(s, n as u64);
}

/// Decimal notation of a signed value (a leading `-` when negative).
pub open spec fn dec_i(n: int) -> Seq<char> {
    if n < 0 {
        seq!['-'] + dec((-n) as nat)
    } else {
        dec(n as nat)
    }
}

/// Appends the decimal notation of an `i32`.
pub fn push_i32(s: &mut String, n: i32)
    ensures
        final(s)@ == old(s)@ + dec_i(n as int),
{
    if n < 0 {
        push_char(s, '-');
        let m: u64 = (0 - (n as i64)) as u64;
        push_dec(s, m);
        proof {
            assert(old(s)@ + dec_i(n as int) =~= old(s)@.push('-') + dec(m as nat));
        }
    } else {
        push_dec(s, n as u64);
    }
}

/// UTF-8 width of a character, in bytes.
pub open spec fn char_width(c: char) -> nat {
    let u = c as u32;
    if u <= 0x7F {
        1
    } else if u <= 0x7FF {
        2
    } else if u <= 0xFFFF {
        3
    } else {
        4
    }
}

pub fn width_of(c: char) -> (r: usize)
    ensures
        r == char_width(c),
{
    let u = c as u32;
    if u <= 0x7F {
        1
    } else if u <= 0x7FF {
        2
    } else if u <= 0xFFFF {
        3
    } else {
        4
    }
}

/// The UTF-8 length of `s` is the sum of its character widths.
pub proof fn lemma_byte_len_first(s: Seq<char>)
    requires
        s.len() > 0,
    ensures
        encode_utf8(s).len() == char_width(s[0]) + encode_utf8(s.drop_first()).len(),
{
    let c = s[0];
    vstd::utf8::char_is_scalar(c);
}

/// UTF-8 length of a concatenation.
pub proof fn lemma_byte_len_concat(a: Seq<char>, b: Seq<char>)
    ensures
        encode_utf8(a + b).len() == encode_utf8(a).len() + encode_utf8(b).len(),
    decreases a.len(),
{
    if a.len() == 0 {
        assert(a + b =~= b);
    } else {
        lemma_byte_len_first(a + b);
        lemma_byte_len_first(a);
        assert((a + b).drop_first() =~= a.drop_first() + b);
        lemma_byte_len_concat(a.drop_first(), b);
    }
}

/// UTF-8 length of one character.
pub proof fn lemma_byte_len_single(c: char)
    ensures
        encode_utf8(seq![c]).len() == char_width(c),
{
    lemma_byte_len_first(seq![c]);
    assert(seq![c].drop_first() =~= Seq::<char>::empty());
}

/// UTF-8 length of a sequence with one more character.
pub proof fn lemma_byte_len_push(s: Seq<char>, c: char)
    ensures
        encode_utf8(s.push(c)).len() == encode_utf8(s).len() + char_width(c),
{
    assert(s.push(c) =~= s + seq![c]);
    lemma_byte_len_concat(s, seq![c]);
    lemma_byte_len_single(c);
}

/// Number of leading characters of `s` that fit in `max` UTF-8 bytes
/// (`str::floor_char_boundary`, counted in characters).
pub open spec fn fit_prefix(s: Seq<char>, max: int) -> nat
    decreases s.len(),
{
    if s.len() == 0 || char_width(s[0]) > max {
        0
    } else {
        1 + fit_prefix(s.drop_first(), max - char_width(s[0]))
    }
}

/// Characters of `v` that fit in a UTF-8 budget of `max` bytes, from the start.
pub fn fit_prefix_len(v: &[char], max: usize) -> (r: usize)
    ensures
        r == fit_prefix(v@, max as int),
        r <= v@.len(),
{
    let mut i: usize = 0;
    let mut left: usize = max;
    proof {
        assert(v@.skip(0) =~= v@);
    }
    while i < v.len() && width_of(v[i]) <= left
        invariant
            i <= v@.len(),
            left <= max,
            fit_prefix(v@, max as int) == i + fit_prefix(v@.skip(i as int), left as int),
        decreases v@.len() - i,
    {
        proof {
            assert(v@.skip(i as int).drop_first() =~= v@.skip(i + 1));
        }
        left = left - width_of(v[i]);
        i = i + 1;
    }
    i
}

/// Number of trailing characters of `s` that fit in `max` UTF-8 bytes.
pub open spec fn fit_suffix(s: Seq<char>, max: int) -> nat
    decreases s.len(),
{
    if s.len() == 0 || char_width(s.last()) > max {
        0
    } else {
        1 + fit_suffix(s.drop_last(), max - char_width(s.last()))
    }
}

/// Characters of `v` that fit in a UTF-8 budget of `max` bytes, from the end.
pub fn fit_suffix_len(v: &[char], max: usize) -> (r: usize)
    ensures
        r == fit_suffix(v@, max as int),
        r <= v@.len(),
{
    let mut n: usize = v.len();
    let mut left: usize = max;
    proof {
        assert(v@.take(v@.len() as int) =~= v@);
    }
    while n > 0 && width_of(v[n - 1]) <= left
        invariant
            n <= v@.len(),
            left <= max,
            fit_suffix(v@, max as int) == (v@.len() - n) + fit_suffix(v@.take(n as int), left as int),
        decreases n,
    {
        proof {
            assert(v@.take(n as int).drop_last() =~= v@.take(n - 1));
            assert(v@.take(n as int).last() == v@[n - 1]);
        }
        left = left - width_of(v[n - 1]);
        n = n - 1;
    }
    v.len() - n
}

pub proof fn lemma_byte_len_nonneg(s: Seq<char>)
    ensures
        encode_utf8(s).len() >= 0,
{
}

/// The characters counted by `fit_prefix` take at most `max` bytes.
pub proof fn lemma_fit_prefix_bytes(s: Seq<char>, max: int)
    requires
        max >= 0,
    ensures
        fit_prefix(s, max) <= s.len(),
        encode_utf8(s.take(fit_prefix(s, max) as int)).len() <= max,
    decreases s.len(),
{
    let k = fit_prefix(s, max);
    if s.len() == 0 || char_width(s[0]) > max {
        assert(s.take(0) =~= Seq::<char>::empty());
    } else {
        let w = char_width(s[0]);
        lemma_fit_prefix_bytes(s.drop_first(), max - w);
        let k1 = fit_prefix(s.drop_first(), max - w);
        assert(s.take(k as int) =~= seq![s[0]] + s.drop_first().take(k1 as int));
        lemma_byte_len_concat(seq![s[0]], s.drop_first().take(k1 as int));
        lemma_byte_len_single(s[0]);
    }
}

/// The characters counted by `fit_suffix` take at most `max` bytes.
pub proof fn lemma_fit_suffix_bytes(s: Seq<char>, max: int)
    requires
        max >= 0,
    ensures
        fit_suffix(s, max) <= s.len(),
        encode_utf8(s.skip(s.len() - fit_suffix(s, max))).len() <= max,
    decreases s.len(),
{
    let k = fit_suffix(s, max);
    if s.len() == 0 || char_width(s.last()) > max {
        assert(s.skip(s.len() as int) =~= Seq::<char>::empty());
    } else {
        let w = char_width(s.last());
        let d = s.drop_last();
        lemma_fit_suffix_bytes(d, max - w);
        let k1 = fit_suffix(d, max - w);
        assert(s.skip(s.len() - k) =~= d.skip(d.len() - k1) + seq![s.last()]);
        lemma_byte_len_concat(d.skip(d.len() - k1), seq![s.last()]);
        lemma_byte_len_single(s.last());
    }
}

/// The first `n` characters of `v` as a vector.
pub fn take_vec(v: &[char], n: usize) -> (r: Vec<char>)
    requires
        n <= v@.len(),
    ensures
        r@ == v@.take(n as int),
{
    let mut r: Vec<char> = Vec::new();
    let mut k: usize = 0;
    while k < n
        invariant
            k <= n <= v@.len(),
            r@ == v@.take(k as int),
        decreases n - k,
    {
        r.push(v[k]);
        proof {
            assert(v@.take(k + 1) =~= v@.take(k as int).push(v@[k as int]));
        }
        k = k + 1;
    }
    r
}

/// Characters `[from, to)` of `v` as a vector.
pub fn slice_vec(v: &[char], from: usize, to: usize) -> (r: Vec<char>)
    requires
        from <= to <= v@.len(),
    ensures
        r@ == v@.subrange(from as int, to as int),
{
    let mut r: Vec<char> = Vec::new();
    let mut k: usize = from;
    while k < to
        invariant
            from <= k <= to <= v@.len(),
            r@ == v@.subrange(from as int, k as int),
        decreases to - k,
    {
        r.push(v[k]);
        proof {
            assert(v@.subrange(from as int, k + 1) =~= v@.subrange(from as int, k as int).push(v@[k as int]));
        }
        k = k + 1;
    }
    r
}

/// Names what std returns as the lowercase form of a string (`str::to_lowercase`).
pub uninterp spec fn lowercase(s: Seq<char>) -> Seq<char>;

/// std `str::to_lowercase`: full Unicode lowercase mapping.
#[verifier::external_body]
pub(crate) fn to_lowercase(s: &str) -> (r: String)
    ensures
        r@ == lowercase(s@),
{
    s.to_lowercase()
}

/// Every character is an ASCII digit.
pub open spec fn all_ascii_digits(s: Seq<char>) -> bool {
    forall|i: int| 0 <= i < s.len() ==> '0' <= #[trigger] s[i] <= '9'
}

/// The value of a string of decimal digits.
pub open spec fn digits_value(s: Seq<char>) -> nat
    decreases s.len(),
{
    if s.len() == 0 {
        0
    } else {
        digits_value(s.drop_last()) * 10 + ((s.last() as int - 48) as nat)
    }
}

/// `str::parse::<i32>`: an optional `+` or `-`, then one or more ASCII
/// digits whose value, with the sign, fits in an `i32`.
pub open spec fn i32_of(s: Seq<char>) -> Option<i32> {
    let neg = s.len() > 0 && s[0] == '-';
    let body = if s.len() > 0 && (s[0] == '-' || s[0] == '+') {
        s.drop_first()
    } else {
        s
    };
    if body.len() == 0 || !all_ascii_digits(body) {
        None
    } else {
        let v: int = if neg {
            -(digits_value(body) as int)
        } else {
            digits_value(body) as int
        };
        if i32::MIN <= v <= i32::MAX {
            Some(v as i32)
        } else {
            None
        }
    }
}

proof fn lemma_digits_value_prefix(s: Seq<char>, k: int)
    requires
        0 <= k <= s.len(),
        all_ascii_digits(s),
    ensures
        digits_value(s.take(k)) <= digits_value(s),
    decreases s.len() - k,
{
    if k < s.len() {
        lemma_digits_value_prefix(s, k + 1);
        assert(s.take(k + 1).drop_last() =~= s.take(k));
        assert('0' <= s.take(k + 1).last() <= '9');
    } else {
        assert(s.take(k) =~= s);
    }
}

/// Parses a decimal `i32` as `str::parse` does.
pub fn parse_i32(s: &str) -> (r: Option<i32>)
    ensures
        r == i32_of(s@),
{
    let v = chars_of(s);
    let n = v.len();
    let neg = n > 0 && v[0] == '-';
    let start: usize = if n > 0 && (v[0] == '-' || v[0] == '+') { 1 } else { 0 };
    let ghost body = v@.skip(start as int);
    proof {
        if start == 1 {
            assert(body =~= v@.drop_first());
        } else {
            assert(body =~= v@);
        }
    }
    if start >= n {
        return None;
    }
    let mut acc: u64 = 0;
    let mut i: usize = start;
    while i < n
        invariant
            start <= i <= n == v@.len(),
            v@ == s@,
            body == v@.skip(start as int),
            body == (if s@.len() > 0 && (s@[0] == '-' || s@[0] == '+') { s@.drop_first() } else { s@ }),
            neg == (s@.len() > 0 && s@[0] == '-'),
            acc == digits_value(body.take(i - start)),
            acc <= 2147483648,
            all_ascii_digits(body.take(i - start)),
        decreases n - i,
    {
        let c = v[i];
        proof {
            assert(body.take(i - start + 1).drop_last() =~= body.take(i - start));
            assert(body.take(i - start + 1).last() == c);
        }
        if c < '0' || c > '9' {
            proof {
                assert(!('0' <= body[i - start] <= '9'));
            }
            return None;
        }
        let d = (c as u32 - 48) as u64;
        let next = acc * 10 + d;
        if next > 2147483648 {
            proof {
                if all_ascii_digits(body) {
                    lemma_digits_value_prefix(body, i - start + 1);
                }
            }
            return None;
        }
        acc = next;
        i = i + 1;
    }
    proof {
        assert(body.take(n - start) =~= body);
    }
    if neg {
        let x = 0 - (acc as i64);
        Some(x as i32)
    } else if acc <= 2147483647 {
        Some(acc as i32)
    } else {
        None
    }
}

} // verus!
