//! Character- and string-level helpers shared by the protocol and catalog
//! code: conversions between `String` and `Vec<char>`, whitespace trimming,
//! ASCII case folding, and decimal parsing/formatting.

use vstd::prelude::*;

verus! {

/// Relies on String::push: appends exactly the given character.
#[verifier::external_body]
pub fn push_char(s: &mut String, c: char)
    ensures
        final(s)@ == old(s)@.push(c),
{
    s.push(c);
}

/// The characters of a string slice, as a vector.
pub fn str_chars(s: &str) -> (r: Vec<char>)
    ensures
        r@ == s@,
{
    let n: usize = s.unicode_len();
    let mut r: Vec<char> = Vec::new();
    let mut i: usize = 0;
    while i < n
        invariant
            i <= n,
            n == s@.len(),
            r@ == s@.subrange(0, i as int),
        decreases n - i,
    {
        r.push(s.get_char(i));
        i = i + 1;
        proof {
            assert(r@ =~= s@.subrange(0, i as int));
        }
    }
    proof {
        assert(r@ =~= s@);
    }
    r
}

/// A string holding exactly the given characters.
pub fn chars_to_string(v: &[char]) -> (r: String)
    ensures
        r@ == v@,
{
    let mut r = String::new();
    let mut i: usize = 0;
    while i < v.len()
        invariant
            i <= v@.len(),
            r@ == v@.subrange(0, i as int),
        decreases v@.len() - i,
    {
        push_char(&mut r, v[i]);
        i = i + 1;
        proof {
            assert(r@ =~= v@.subrange(0, i as int));
        }
    }
    proof {
        assert(r@ =~= v@);
    }
    r
}

/// ASCII whitespace, as the protocol and catalog formats use it.
pub open spec fn is_space_char(c: char) -> bool {
    c == ' ' || c == '\t' || c == '\n' || c == '\r' || c == '\u{b}' || c == '\u{c}'
}

/// Exec test for [`is_space_char`].
pub fn is_space(c: char) -> (r: bool)
    ensures
        r == is_space_char(c),
{
    c == ' ' || c == '\t' || c == '\n' || c == '\r' || c == '\u{b}' || c == '\u{c}'
}

/// The sequence with leading whitespace removed.
pub open spec fn spec_trim_start(s: Seq<char>) -> Seq<char>
    decreases s.len(),
{
    if s.len() > 0 && is_space_char(s[0]) {
        spec_trim_start(s.drop_first())
    } else {
        s
    }
}

/// The sequence with trailing whitespace removed.
pub open spec fn spec_trim_end(s: Seq<char>) -> Seq<char>
    decreases s.len(),
{
    if s.len() > 0 && is_space_char(s.last()) {
        spec_trim_end(s.drop_last())
    } else {
        s
    }
}

/// The sequence with whitespace removed on both ends.
pub open spec fn spec_trim(s: Seq<char>) -> Seq<char> {
    spec_trim_end(spec_trim_start(s))
}

proof fn lemma_trim_start_skip(s: Seq<char>, k: int)
    requires
        0 <= k <= s.len(),
        forall|j: int| 0 <= j < k ==> is_space_char(s[j]),
    ensures
        spec_trim_start(s) == spec_trim_start(s.subrange(k, s.len() as int)),
    decreases k,
{
    if k > 0 {
        assert(is_space_char(s[0]));
        let t = s.drop_first();
        lemma_trim_start_skip(t, k - 1);
        assert(t.subrange(k - 1, t.len() as int) =~= s.subrange(k, s.len() as int));
    } else {
        assert(s.subrange(0, s.len() as int) =~= s);
    }
}

proof fn lemma_trim_end_skip(s: Seq<char>, k: int)
    requires
        0 <= k <= s.len(),
        forall|j: int| k <= j < s.len() ==> is_space_char(s[j]),
    ensures
        spec_trim_end(s) == spec_trim_end(s.subrange(0, k)),
    decreases s.len() - k,
{
    if k < s.len() {
        assert(is_space_char(s.last()));
        let t = s.drop_last();
        lemma_trim_end_skip(t, k);
        assert(t.subrange(0, k) =~= s.subrange(0, k));
    } else {
        assert(s.subrange(0, s.len() as int) =~= s);
    }
}

/// The given characters with whitespace removed on both ends.
pub fn trim_chars(v: &[char]) -> (r: Vec<char>)
    ensures
        r@ == spec_trim(v@),
{
    let n: usize = v.len();
    let mut a: usize = 0;
    while a < n && is_space(v[a])
        invariant
            a <= n,
            n == v@.len(),
            forall|j: int| 0 <= j < a ==> is_space_char(v@[j]),
        decreases n - a,
    {
        a = a + 1;
    }
    let mut b: usize = n;
    while b > a && is_space(v[b - 1])
        invariant
            a <= b <= n,
            n == v@.len(),
            forall|j: int| 0 <= j < a ==> is_space_char(v@[j]),
            forall|j: int| b <= j < n ==> is_space_char(v@[j]),
        decreases b,
    {
        b = b - 1;
    }
    let mut r: Vec<char> = Vec::new();
    let mut i: usize = a;
    while i < b
        invariant
            a <= i <= b <= n,
            n == v@.len(),
            r@ == v@.subrange(a as int, i as int),
        decreases b - i,
    {
        r.push(v[i]);
        i = i + 1;
        proof {
            assert(r@ =~= v@.subrange(a as int, i as int));
        }
    }
    proof {
        let t = v@.subrange(a as int, n as int);
        lemma_trim_start_skip(v@, a as int);
        if a < n {
            assert(!is_space_char(v@[a as int]));
            assert(spec_trim_start(t) == t);
        } else {
            assert(t.len() == 0);
        }
        lemma_trim_end_skip(t, b - a);
        assert(t.subrange(0, b - a) =~= v@.subrange(a as int, b as int));
        if b > a {
            assert(!is_space_char(v@[b - 1]));
            assert(v@.subrange(a as int, b as int).last() == v@[b - 1]);
            assert(spec_trim_end(v@.subrange(a as int, b as int)) =~= v@.subrange(
                a as int,
                b as int,
            ));
        }
        assert(r@ =~= spec_trim(v@));
    }
    r
}

/// ASCII lower-casing of one character; other characters are unchanged.
pub open spec fn lower_char(c: char) -> char {
    if 'A' <= c && c <= 'Z' {
        (((c as u8) + 32) as u8) as char
    } else {
        c
    }
}

/// ASCII case-insensitive equality of two character sequences.
pub open spec fn eq_ignore_case(a: Seq<char>, b: Seq<char>) -> bool {
    a.len() == b.len() && forall|i: int| 0 <= i < a.len() ==> lower_char(a[i]) == lower_char(b[i])
}

/// Exec ASCII case-insensitive comparison.
pub fn chars_eq_ignore_case(a: &[char], b: &[char]) -> (r: bool)
    ensures
        r == eq_ignore_case(a@, b@),
{
    if a.len() != b.len() {
        return false;
    }
    let n: usize = a.len();
    let mut i: usize = 0;
    while i < n
        invariant
            i <= n,
            n == a@.len() == b@.len(),
            forall|j: int| 0 <= j < i ==> lower_char(a@[j]) == lower_char(b@[j]),
        decreases n - i,
    {
        let ca = a[i];
        let cb = b[i];
        let la = if 'A' <= ca && ca <= 'Z' {
            ((ca as u8) + 32) as char
        } else {
            ca
        };
        let lb = if 'A' <= cb && cb <= 'Z' {
            ((cb as u8) + 32) as char
        } else {
            cb
        };
        if la != lb {
            return false;
        }
        i = i + 1;
    }
    true
}

/// The digit character for a value below ten.
pub open spec fn dec_digit(d: nat) -> char {
    (((d + 48) as u8) as char)
}

/// The decimal representation of a natural number, without leading zeros.
pub open spec fn dec_chars(n: nat) -> Seq<char>
    decreases n,
{
    if n < 10 {
        seq![dec_digit(n)]
    } else {
        dec_chars(n / 10).push(dec_digit(n % 10))
    }
}

/// The decimal representation of a u64, as a string.
pub fn u64_to_string(n: u64) -> (r: String)
    ensures
        r@ == dec_chars(n as nat),
{
    let mut digits: Vec<char> = Vec::new();
    let mut m: u64 = n;
    proof {
        assert(dec_chars(n as nat) =~= dec_chars(n as nat) + digits@);
    }
    loop
        invariant
            dec_chars(n as nat) == dec_chars(m as nat) + digits@,
        ensures
            dec_chars(n as nat) == seq![dec_digit((m % 10) as nat)] + digits@,
            m < 10,
        decreases m,
    {
        let d: char = ((m % 10) as u8 + 48) as char;
        proof {
            assert(d == dec_digit((m % 10) as nat));
        }
        if m < 10 {
            proof {
                assert(dec_chars(m as nat) =~= seq![dec_digit((m % 10) as nat)]);
            }
            break ;
        }
        proof {
            assert(dec_chars(m as nat) == dec_chars((m / 10) as nat).push(
                dec_digit((m % 10) as nat),
            ));
            assert(dec_chars(n as nat) =~= dec_chars((m / 10) as nat) + digits@.insert(0, d));
        }
        digits.insert(0, d);
        m = m / 10;
    }
    let d: char = ((m % 10) as u8 + 48) as char;
    let mut all: Vec<char> = Vec::new();
    all.push(d);
    let mut i: usize = 0;
    while i < digits.len()
        invariant
            i <= digits@.len(),
            all@ == seq![dec_digit((m % 10) as nat)] + digits@.subrange(0, i as int),
            dec_chars(n as nat) == seq![dec_digit((m % 10) as nat)] + digits@,
            m < 10,
        decreases digits@.len() - i,
    {
        all.push(digits[i]);
        i = i + 1;
        proof {
            assert(all@ =~= seq![dec_digit((m % 10) as nat)] + digits@.subrange(0, i as int));
        }
    }
    proof {
        assert(digits@.subrange(0, digits@.len() as int) =~= digits@);
        assert(all@ =~= dec_chars(n as nat));
    }
    chars_to_string(all.as_slice())
}

/// Whether a character is a decimal digit.
pub open spec fn is_dec_digit(c: char) -> bool {
    '0' <= c && c <= '9'
}

/// The value of a decimal digit character.
pub open spec fn digit_val(c: char) -> nat {
    ((c as u8) - 48) as nat
}

/// A non-empty, all-digits character sequence.
pub open spec fn is_digit_seq(s: Seq<char>) -> bool {
    s.len() > 0 && forall|i: int| 0 <= i < s.len() ==> is_dec_digit(s[i])
}

/// The numeric value of a digit sequence.
pub open spec fn dec_value(s: Seq<char>) -> nat
    decreases s.len(),
{
    if s.len() == 0 {
        0
    } else {
        dec_value(s.drop_last()) * 10 + digit_val(s.last())
    }
}

/// The digit part of an unsigned-integer literal: an optional leading `+`
/// sign is accepted, as Rust's own unsigned parsing accepts it.
pub open spec fn spec_uint_digits(s: Seq<char>) -> Seq<char> {
    if s.len() > 0 && s[0] == '+' {
        s.drop_first()
    } else {
        s
    }
}

/// Whether a character sequence is a well-formed unsigned-integer literal
/// with a value of at most `max`.
pub open spec fn is_uint_in_range(s: Seq<char>, max: nat) -> bool {
    is_digit_seq(spec_uint_digits(s)) && dec_value(spec_uint_digits(s)) <= max
}

proof fn lemma_dec_value_prefix_le(s: Seq<char>, i: int)
    requires
        forall|j: int| 0 <= j < s.len() ==> is_dec_digit(s[j]),
        0 <= i <= s.len(),
    ensures
        dec_value(s.subrange(0, i)) <= dec_value(s),
    decreases s.len() - i,
{
    if i < s.len() {
        lemma_dec_value_prefix_le(s, i + 1);
        let p = s.subrange(0, i);
        let q = s.subrange(0, i + 1);
        assert(q.drop_last() =~= p);
        assert(dec_value(q) == dec_value(p) * 10 + digit_val(q.last()));
        assert(dec_value(p) <= dec_value(p) * 10) by (nonlinear_arith);
    } else {
        assert(s.subrange(0, i) =~= s);
    }
}

/// Parses a digit sequence (with optional leading `+`) as an unsigned value
/// of at most `max`; anything else, including overflow, is `None`.
pub fn parse_uint(v: &[char], max: u64) -> (r: Option<u64>)
    ensures
        r is Some <==> is_uint_in_range(v@, max as nat),
        r is Some ==> r->0 as nat == dec_value(spec_uint_digits(v@)),
{
    let start: usize = if v.len() > 0 && v[0] == '+' {
        1
    } else {
        0
    };
    let ghost digits = spec_uint_digits(v@);
    proof {
        assert(digits =~= v@.subrange(start as int, v@.len() as int));
    }
    if v.len() == start {
        return None;
    }
    let n: usize = v.len();
    let mut acc: u64 = 0;
    let mut i: usize = start;
    while i < n
        invariant
            start <= i <= n,
            n == v@.len(),
            start < n,
            digits == v@.subrange(start as int, n as int),
            digits == spec_uint_digits(v@),
            forall|j: int| start <= j < i ==> is_dec_digit(v@[j]),
            acc as nat == dec_value(v@.subrange(start as int, i as int)),
            acc <= max,
        decreases n - i,
    {
        let c = v[i];
        if !('0' <= c && c <= '9') {
            proof {
                assert(digits[i - start] == c);
                assert(!is_dec_digit(digits[i - start]));
                assert(!is_digit_seq(digits));
            }
            return None;
        }
        let d: u64 = (c as u8 - 48) as u64;
        let ghost p = v@.subrange(start as int, i as int);
        let ghost q = v@.subrange(start as int, i + 1);
        proof {
            assert(q.drop_last() =~= p);
            assert(q.last() == c);
            assert(dec_value(q) == (acc as nat) * 10 + digit_val(c));
        }
        let overflow: bool = if acc > max / 10 {
            true
        } else {
            proof {
                assert(10 * acc <= max) by (nonlinear_arith)
                    requires
                        acc <= max / 10,
                ;
            }
            let t: u64 = 10 * acc;
            d > max - t
        };
        if overflow {
            proof {
                assert((acc as nat) * 10 + digit_val(c) > max as nat) by (nonlinear_arith)
                    requires
                        d as nat == digit_val(c),
                        d < 10,
                        acc > max / 10 || 10 * acc + d > max,
                ;
                assert(dec_value(q) > max as nat);
                let ghost upto = i + 1 - start;
                assert(digits.subrange(0, upto) =~= q);
                if is_digit_seq(digits) {
                    lemma_dec_value_prefix_le(digits, upto);
                    assert(dec_value(digits) > max as nat);
                }
                assert(!is_uint_in_range(v@, max as nat));
            }
            return None;
        }
        acc = 10 * acc + d;
        i = i + 1;
    }
    proof {
        assert(v@.subrange(start as int, n as int) =~= digits);
        assert(is_digit_seq(digits));
    }
    Some(acc)
}

/// Parses as [`parse_uint`] with a `u32` bound, for catalog prices.
pub fn parse_u32_chars(v: &[char]) -> (r: Option<u32>)
    ensures
        r is Some <==> is_uint_in_range(v@, u32::MAX as nat),
        r is Some ==> r->0 as nat == dec_value(spec_uint_digits(v@)),
{
    match parse_uint(v, 0xffff_ffffu64) {
        Some(x) => Some(x as u32),
        None => None,
    }
}

/// The index of the first occurrence of `c` in `s`, or `s.len()` if absent.
pub open spec fn find_char(s: Seq<char>, c: char) -> int
    decreases s.len(),
{
    if s.len() == 0 {
        0
    } else if s[0] == c {
        0
    } else {
        1 + find_char(s.drop_first(), c)
    }
}

pub proof fn lemma_find_char(s: Seq<char>, c: char)
    ensures
        0 <= find_char(s, c) <= s.len(),
        forall|j: int| 0 <= j < find_char(s, c) ==> s[j] != c,
        find_char(s, c) < s.len() ==> s[find_char(s, c)] == c,
    decreases s.len(),
{
    if s.len() > 0 && s[0] != c {
        let t = s.drop_first();
        lemma_find_char(t, c);
        assert(forall|j: int| 1 <= j < find_char(s, c) ==> s[j] == t[j - 1]);
    }
}

pub proof fn lemma_find_char_is(s: Seq<char>, c: char, r: int)
    requires
        0 <= r <= s.len(),
        forall|j: int| 0 <= j < r ==> s[j] != c,
        r < s.len() ==> s[r] == c,
    ensures
        find_char(s, c) == r,
    decreases r,
{
    if s.len() > 0 {
        if r > 0 {
            let t = s.drop_first();
            assert(forall|j: int| 0 <= j < r - 1 ==> t[j] != c);
            lemma_find_char_is(t, c, r - 1);
        }
    }
}

/// The first occurrence of `c` in `v`, or `v.len()` if absent.
pub fn find_char_at(v: &[char], c: char) -> (r: usize)
    ensures
        r as int == find_char(v@, c),
{
    let n: usize = v.len();
    let mut i: usize = 0;
    while i < n
        invariant
            i <= n,
            n == v@.len(),
            forall|j: int| 0 <= j < i ==> v@[j] != c,
        decreases n - i,
    {
        if v[i] == c {
            proof {
                lemma_find_char_is(v@, c, i as int);
            }
            return i;
        }
        i = i + 1;
    }
    proof {
        lemma_find_char_is(v@, c, n as int);
    }
    n
}

/// The lines of a text, split at `'\n'`; a final newline ends the last line
/// and opens no empty one, as `str::lines` reads it.
pub open spec fn split_lines(s: Seq<char>) -> Seq<Seq<char>>
    decreases s.len(),
{
    if s.len() == 0 {
        Seq::empty()
    } else {
        let i = find_char(s, '\n');
        if !(0 <= i && i < s.len()) {
            seq![s]
        } else {
            seq![s.take(i)] + split_lines(s.skip(i + 1))
        }
    }
}

/// The pieces of `s` around every occurrence of `c`, as `str::split` yields
/// them: an empty input gives one empty piece.
pub open spec fn split_char(s: Seq<char>, c: char) -> Seq<Seq<char>>
    decreases s.len(),
{
    let i = find_char(s, c);
    if !(0 <= i && i < s.len()) {
        seq![s]
    } else {
        seq![s.take(i)] + split_char(s.skip(i + 1), c)
    }
}

/// The views of a vector of character vectors.
pub open spec fn views_of(r: Seq<Vec<char>>) -> Seq<Seq<char>> {
    r.map_values(|x: Vec<char>| x@)
}

fn split_at_all(v: &[char], c: char) -> (r: Vec<Vec<char>>)
    ensures
        views_of(r@) == split_char(v@, c),
{
    let n: usize = v.len();
    let mut r: Vec<Vec<char>> = Vec::new();
    let mut pos: usize = 0;
    proof {
        assert(views_of(r@) =~= Seq::<Seq<char>>::empty());
        assert(v@.subrange(0, n as int) =~= v@);
        assert(split_char(v@, c) =~= views_of(r@) + split_char(v@.subrange(0, n as int), c));
    }
    loop
        invariant
            pos <= n,
            n == v@.len(),
            split_char(v@, c) == views_of(r@) + split_char(v@.subrange(pos as int, n as int), c),
        decreases n - pos + 1,
    {
        proof {
            assert(split_char(v@, c) =~= views_of(r@) + split_char(
                v@.subrange(pos as int, n as int),
                c,
            ));
        }
        let ghost rest = v@.subrange(pos as int, n as int);
        let mut j: usize = pos;
        while j < n && v[j] != c
            invariant
                pos <= j <= n,
                n == v@.len(),
                forall|k: int| pos <= k < j ==> v@[k] != c,
            decreases n - j,
        {
            j = j + 1;
        }
        proof {
            assert(forall|k: int| 0 <= k < j - pos ==> rest[k] != c);
            if j < n {
                assert(rest[j - pos] == c);
            }
            lemma_find_char_is(rest, c, j - pos);
        }
        let mut piece: Vec<char> = Vec::new();
        let mut k: usize = pos;
        while k < j
            invariant
                pos <= k <= j <= n,
                n == v@.len(),
                piece@ == v@.subrange(pos as int, k as int),
            decreases j - k,
        {
            piece.push(v[k]);
            k = k + 1;
            proof {
                assert(piece@ =~= v@.subrange(pos as int, k as int));
            }
        }
        proof {
            assert(piece@ =~= rest.take(j - pos));
        }
        if j == n {
            proof {
                assert(split_char(rest, c) =~= seq![rest]);
                assert(rest =~= piece@);
                assert(views_of(r@.push(piece)) =~= views_of(r@).push(piece@));
                assert(split_char(v@, c) =~= views_of(r@.push(piece)));
            }
            r.push(piece);
            return r;
        }
        proof {
            assert(split_char(rest, c) =~= seq![rest.take(j - pos)] + split_char(
                rest.skip(j - pos + 1),
                c,
            ));
            assert(rest.skip(j - pos + 1) =~= v@.subrange(j + 1, n as int));
            assert(views_of(r@.push(piece)) =~= views_of(r@).push(piece@));
            assert(views_of(r@) + split_char(rest, c) =~= views_of(r@.push(piece)) + split_char(
                v@.subrange(j + 1, n as int),
                c,
            ));
        }
        r.push(piece);
        pos = j + 1;
    }
}

/// Splits `v` at every occurrence of `c`, as `str::split` does.
pub fn split_chars(v: &[char], c: char) -> (r: Vec<Vec<char>>)
    ensures
        views_of(r@) == split_char(v@, c),
{
    split_at_all(v, c)
}

/// Splits `v` into lines, as `str::lines` does (without `'\r'` stripping,
/// which the callers' own trimming subsumes).
pub fn split_lines_chars(v: &[char]) -> (r: Vec<Vec<char>>)
    ensures
        views_of(r@) == split_lines(v@),
{
    proof {
        lemma_split_lines_from_split_char(v@);
    }
    let mut r = split_at_all(v, '\n');
    if v.len() == 0 {
        let _ = r.pop();
        proof {
            assert(views_of(r@) =~= split_lines(v@));
        }
        return r;
    }
    if v[v.len() - 1] == '\n' {
        let _ = r.pop();
        proof {
            let full = split_char(v@, '\n');
            assert(views_of(r@) =~= full.drop_last());
        }
    }
    r
}

proof fn lemma_split_char_len(s: Seq<char>, c: char)
    ensures
        split_char(s, c).len() >= 1,
    decreases s.len(),
{
}

/// How `str::lines` relates to `str::split('\n')`: a trailing newline (or an
/// empty text) drops the final empty piece.
proof fn lemma_split_lines_from_split_char(s: Seq<char>)
    ensures
        s.len() == 0 ==> split_lines(s) == split_char(s, '\n').drop_last(),
        s.len() > 0 && s.last() == '\n' ==> split_lines(s) == split_char(s, '\n').drop_last()
            && split_char(s, '\n').last() =~= Seq::<char>::empty(),
        s.len() > 0 && s.last() != '\n' ==> split_lines(s) == split_char(s, '\n'),
    decreases s.len(),
{
    lemma_find_char(s, '\n');
    if s.len() == 0 {
        assert(split_char(s, '\n') =~= seq![s]);
        assert(split_lines(s) =~= split_char(s, '\n').drop_last());
    } else {
        let i = find_char(s, '\n');
        if i == s.len() {
            assert(s.last() != '\n');
        } else {
            let rest = s.skip(i + 1);
            lemma_split_lines_from_split_char(rest);
            lemma_split_char_len(rest, '\n');
            if rest.len() == 0 {
                assert(s.last() == '\n');
                assert(split_char(rest, '\n') =~= seq![rest]);
                assert(split_lines(s) =~= seq![s.take(i)]);
                assert(split_char(s, '\n') =~= seq![s.take(i), rest]);
                assert(split_lines(s) =~= split_char(s, '\n').drop_last());
            } else {
                assert(rest.last() == s.last());
                if s.last() == '\n' {
                    assert(split_lines(s) =~= seq![s.take(i)] + split_char(
                        rest,
                        '\n',
                    ).drop_last());
                    assert(split_char(s, '\n').drop_last() =~= seq![s.take(i)] + split_char(
                        rest,
                        '\n',
                    ).drop_last());
                    assert(split_char(s, '\n').last() == split_char(rest, '\n').last());
                } else {
                    assert(split_lines(s) =~= split_char(s, '\n'));
                }
            }
        }
    }
}

/// `n` copies of a character.
pub open spec fn repeat_char(c: char, n: nat) -> Seq<char>
    decreases n,
{
    if n == 0 {
        Seq::<char>::empty()
    } else {
        repeat_char(c, (n - 1) as nat).push(c)
    }
}

/// Appends `n` copies of `c` to the buffer.
pub fn push_repeat(buffer: &mut String, c: char, n: usize)
    ensures
        final(buffer)@ == old(buffer)@ + repeat_char(c, n as nat),
{
    let mut k: usize = 0;
    proof {
        assert(old(buffer)@ + repeat_char(c, 0) =~= old(buffer)@);
    }
    while k < n
        invariant
            k <= n,
            buffer@ == old(buffer)@ + repeat_char(c, k as nat),
        decreases n - k,
    {
        push_char(buffer, c);
        k = k + 1;
        proof {
            assert(old(buffer)@ + repeat_char(c, (k - 1) as nat).push(c) =~= old(buffer)@
                + repeat_char(c, k as nat));
        }
    }
}

/// Exact character equality of two slices.
pub fn chars_eq(a: &[char], b: &[char]) -> (r: bool)
    ensures
        r == (a@ == b@),
{
    if a.len() != b.len() {
        proof {
            assert(a@ != b@);
        }
        return false;
    }
    let n: usize = a.len();
    let mut i: usize = 0;
    while i < n
        invariant
            i <= n,
            n == a@.len() == b@.len(),
            forall|j: int| 0 <= j < i ==> a@[j] == b@[j],
        decreases n - i,
    {
        if a[i] != b[i] {
            return false;
        }
        i = i + 1;
    }
    proof {
        assert(a@ =~= b@);
    }
    true
}

} // verus!
