//! The library-wide laws: statements that relate several functions, proved
//! once over all inputs. Each proof function's contract is the law; the
//! body is only its proof.

use vstd::prelude::*;
use vstd::arithmetic::div_mod::lemma_fundamental_div_mod_converse;

use crate::request::{
    connection_close_line, content_length_prefix, content_type_prefix, crlf, host_prefix,
    http_version_tail, method_chars, spec_path_or_default, spec_request_text, Method, RequestModel,
};
use crate::response::{
    content_length_name, header_value, headers_end, is_content_length_line, latin1,
    scan_content_length, spec_parse_response_body, BodyLength, HttpErrorModel,
};
use crate::strutil::{
    dec_chars, dec_digit, dec_value, digit_val, eq_ignore_case, find_char, is_dec_digit, is_digit_seq, lower_char, is_space_char, is_uint_in_range, lemma_find_char, lemma_find_char_is,
    spec_trim, spec_trim_end, spec_trim_start, spec_uint_digits,
};
use crate::transactions::{spec_custom_total_cents, sum_qty_prices};
use crate::types::ToppingModel;
use crate::update::{nav_down, nav_up};

verus! {

/// The selection after `n` consecutive down moves from row 0.
pub open spec fn iter_nav_down(n: nat, len: int) -> int
    decreases n,
{
    if n == 0 {
        0
    } else {
        nav_down(iter_nav_down((n - 1) as nat, len), len)
    }
}

/// Law: on a menu of length `len`, `n` consecutive down moves from row 0
/// land on `n % len`, and one further up move lands on
/// `(n % len - 1 + len) % len`.
pub proof fn lemma_navigation_wraparound(n: nat, len: int)
    requires
        len > 0,
    ensures
        iter_nav_down(n, len) == n as int % len,
        nav_up(iter_nav_down(n, len), len) == (n as int % len - 1 + len) % len,
    decreases n,
{
    if n == 0 {
        lemma_fundamental_div_mod_converse(0, len, 0, 0);
    } else {
        lemma_navigation_wraparound((n - 1) as nat, len);
        let r = (n - 1) as int % len;
        let q = (n - 1) as int / len;
        vstd::arithmetic::div_mod::lemma_fundamental_div_mod((n - 1) as int, len);
        if r + 1 < len {
            lemma_fundamental_div_mod_converse(n as int, len, q, r + 1);
        } else {
            assert(n as int == (q + 1) * len + 0) by (nonlinear_arith)
                requires
                    (n - 1) as int == q * len + r,
                    r + 1 == len,
            ;
            lemma_fundamental_div_mod_converse(n as int, len, q + 1, 0);
        }
    }
    let m = n as int % len;
    if m > 0 {
        lemma_fundamental_div_mod_converse(m - 1 + len, len, 1, m - 1);
    } else {
        lemma_fundamental_div_mod_converse(m - 1 + len, len, 0, len - 1);
    }
}

/// One increment of the counter at `i`, held at the type's top.
pub open spec fn inc_at(qty: Seq<u32>, i: int) -> Seq<u32> {
    qty.update(
        i,
        if qty[i] < u32::MAX {
            (qty[i] + 1) as u32
        } else {
            u32::MAX
        },
    )
}

/// One decrement of the counter at `i`, floored at zero.
pub open spec fn dec_at(qty: Seq<u32>, i: int) -> Seq<u32> {
    if qty[i] > 0 {
        qty.update(i, (qty[i] - 1) as u32)
    } else {
        qty
    }
}

/// `k` increments of the counter at `i`.
pub open spec fn iter_inc(qty: Seq<u32>, i: int, k: nat) -> Seq<u32>
    decreases k,
{
    if k == 0 {
        qty
    } else {
        inc_at(iter_inc(qty, i, (k - 1) as nat), i)
    }
}

/// `k` decrements of the counter at `i`.
pub open spec fn iter_dec(qty: Seq<u32>, i: int, k: nat) -> Seq<u32>
    decreases k,
{
    if k == 0 {
        qty
    } else {
        dec_at(iter_dec(qty, i, (k - 1) as nat), i)
    }
}

proof fn lemma_iter_inc(qty: Seq<u32>, i: int, k: nat)
    requires
        0 <= i < qty.len(),
        qty[i] + k <= u32::MAX,
    ensures
        iter_inc(qty, i, k) =~= qty.update(i, (qty[i] + k) as u32),
    decreases k,
{
    if k == 0 {
        assert(qty.update(i, qty[i]) =~= qty);
    } else {
        lemma_iter_inc(qty, i, (k - 1) as nat);
    }
}

proof fn lemma_iter_dec(qty: Seq<u32>, i: int, k: nat)
    requires
        0 <= i < qty.len(),
        k <= qty[i],
    ensures
        iter_dec(qty, i, k) =~= qty.update(i, (qty[i] - k) as u32),
    decreases k,
{
    if k == 0 {
        assert(qty.update(i, qty[i]) =~= qty);
    } else {
        lemma_iter_dec(qty, i, (k - 1) as nat);
    }
}

/// Law: after raising the counter of topping `i` by `q` and lowering it by
/// `q'` (with `q' <= q`), the counters equal the original vector with entry
/// `i` set to its value plus `q - q'`, and the freshly recomputed total is
/// exactly `(base + sum over j of quantity[j] * price[j]) * 100` for that
/// resulting vector — incremental edits leave no drift.
pub proof fn lemma_running_total_fresh(
    av: Seq<ToppingModel>,
    qty: Seq<u32>,
    i: int,
    q: nat,
    q2: nat,
    base_price: u32,
)
    requires
        0 <= i < qty.len(),
        qty.len() <= av.len(),
        q2 <= q,
        qty[i] + q <= u32::MAX,
    ensures
        ({
            let after = iter_dec(iter_inc(qty, i, q), i, q2);
            &&& after == qty.update(i, (qty[i] + q - q2) as u32)
            &&& spec_custom_total_cents(base_price, av, after) == (base_price + sum_qty_prices(
                av,
                after,
            )) * 100
        }),
{
    lemma_iter_inc(qty, i, q);
    let mid = qty.update(i, (qty[i] + q) as u32);
    lemma_iter_dec(mid, i, q2);
    assert(mid.update(i, (mid[i] - q2) as u32) =~= qty.update(i, (qty[i] + q - q2) as u32));
}

/// Trailing whitespace never changes a trim.
proof fn lemma_trim_push_space(s: Seq<char>, c: char)
    requires
        is_space_char(c),
    ensures
        spec_trim(s.push(c)) == spec_trim(s),
    decreases s.len(),
{
    if s.len() > 0 && is_space_char(s[0]) {
        assert(s.push(c).drop_first() =~= s.drop_first().push(c));
        lemma_trim_push_space(s.drop_first(), c);
    } else if s.len() == 0 {
        assert(s.push(c).drop_first() =~= s);
    } else {
        assert(spec_trim_start(s.push(c)) =~= s.push(c));
        assert(spec_trim_start(s) =~= s);
        assert(s.push(c).drop_last() =~= s);
    }
}

/// Finding in a concatenation whose first part lacks the character.
proof fn lemma_find_char_append(a: Seq<char>, b: Seq<char>, c: char)
    requires
        forall|j: int| 0 <= j < a.len() ==> a[j] != c,
    ensures
        find_char(a + b, c) == a.len() + find_char(b, c),
{
    lemma_find_char(b, c);
    let r = a.len() + find_char(b, c);
    assert(forall|j: int| 0 <= j < r ==> (a + b)[j] != c);
    if find_char(b, c) < b.len() {
        assert((a + b)[r] == c);
    }
    lemma_find_char_is(a + b, c, r);
}

/// Scanning is position-independent: from `p` it sees only the suffix.
proof fn lemma_scan_shift(t: Seq<char>, p: int)
    requires
        0 <= p <= t.len(),
    ensures
        scan_content_length(t, p) == scan_content_length(t.skip(p), 0),
        headers_end(t, p) == p + headers_end(t.skip(p), 0),
    decreases t.len() - p, 0int,
{
    let s = t.skip(p);
    if p == t.len() {
        assert(s.len() == 0);
    } else {
        let f = find_char(s, '\n');
        lemma_find_char(s, '\n');
        assert(s.skip(0) =~= s);
        let e = p + f;
        assert(t.subrange(p, e) =~= s.subrange(0, f));
        if spec_trim(t.subrange(p, e)).len() == 0 {
        } else {
            if e < t.len() {
                lemma_scan_shift(t, e + 1);
                assert(t.skip(e + 1) =~= s.skip(f + 1));
                lemma_scan_shift_inner(s, f + 1);
            } else {
                assert(f >= s.len());
            }
        }
    }
}

/// The suffix view of one scan step.
proof fn lemma_scan_shift_inner(s: Seq<char>, p: int)
    requires
        0 <= p <= s.len(),
    ensures
        scan_content_length(s, p) == scan_content_length(s.skip(p), 0),
        headers_end(s, p) == p + headers_end(s.skip(p), 0),
    decreases s.len() - p, 1int,
{
    lemma_scan_shift(s, p);
}

/// The header lines of a message head, each closed by CRLF.
pub open spec fn head_text(lines: Seq<Seq<char>>, i: int) -> Seq<char>
    decreases lines.len() - i,
{
    if !(0 <= i < lines.len()) {
        Seq::<char>::empty()
    } else {
        lines[i] + seq!['\r', '\n'] + head_text(lines, i + 1)
    }
}

/// What the header lines declare the body length to be: the first line
/// whose name reads `content-length`, case-insensitively, decides.
pub open spec fn lines_scan(lines: Seq<Seq<char>>, i: int) -> BodyLength
    decreases lines.len() - i,
{
    if !(0 <= i < lines.len()) {
        BodyLength::Absent
    } else {
        let line = spec_trim(lines[i]);
        if is_content_length_line(line) {
            let v = header_value(line);
            if is_uint_in_range(v, usize::MAX as nat) {
                BodyLength::Given(dec_value(spec_uint_digits(v)))
            } else {
                BodyLength::Bad(v)
            }
        } else {
            lines_scan(lines, i + 1)
        }
    }
}

/// A usable header line: no line break of its own, and not blank — a blank
/// line would end the header section early.
pub open spec fn plain_header_line(line: Seq<char>) -> bool {
    &&& forall|j: int| 0 <= j < line.len() ==> line[j] != '\n'
    &&& spec_trim(line).len() > 0
}

/// How a built message parses: the scan over its text is the scan over its
/// lines, and the body starts right after the blank line that closes the
/// head.
proof fn lemma_head_structure(lines: Seq<Seq<char>>, tail: Seq<char>)
    requires
        forall|i: int| 0 <= i < lines.len() ==> plain_header_line(#[trigger] lines[i]),
    ensures
        scan_content_length(head_text(lines, 0) + seq!['\r', '\n'] + tail, 0) == lines_scan(
            lines,
            0,
        ),
        headers_end(head_text(lines, 0) + seq!['\r', '\n'] + tail, 0) == head_text(
            lines,
            0,
        ).len() + 2,
    decreases lines.len(),
{
    let t = head_text(lines, 0) + seq!['\r', '\n'] + tail;
    if lines.len() == 0 {
        assert(head_text(lines, 0) =~= Seq::<char>::empty());
        assert(t =~= seq!['\r', '\n'] + tail);
        assert(t[0] == '\r' && t[1] == '\n');
        lemma_find_char_is(t.skip(0), '\n', 1);
        assert(t.skip(0) =~= t);
        assert(t.subrange(0, 1) =~= seq!['\r']);
        assert(spec_trim(seq!['\r']) =~= Seq::<char>::empty()) by {
            assert(seq!['\r'].drop_first() =~= Seq::<char>::empty());
            assert(is_space_char('\r'));
            assert(spec_trim_start(seq!['\r']) == spec_trim_start(Seq::<char>::empty()));
        }
        assert(headers_end(t, 0) == 2);
    } else {
        let line = lines[0];
        let rest_lines = lines.drop_first();
        let rest = head_text(rest_lines, 0) + seq!['\r', '\n'] + tail;
        assert(head_text(lines, 0) =~= line + seq!['\r', '\n'] + head_text(lines, 1));
        assert(head_text(lines, 1) =~= head_text(rest_lines, 0)) by {
            lemma_head_drop_first(lines, 1);
        }
        assert(t =~= line + (seq!['\r', '\n'] + rest));
        let mid = seq!['\r', '\n'] + rest;
        assert(mid[0] == '\r' && mid[1] == '\n');
        lemma_find_char_is(mid, '\n', 1);
        lemma_find_char_append(line, mid, '\n');
        assert(find_char(t, '\n') == line.len() + 1);
        assert(t.skip(0) =~= t);
        let e = line.len() as int + 1;
        assert(t.subrange(0, e) =~= line.push('\r'));
        lemma_trim_push_space(line, '\r');
        assert(spec_trim(t.subrange(0, e)) == spec_trim(line));
        assert(spec_trim(line).len() > 0);
        assert(e < t.len());
        lemma_scan_shift(t, e + 1);
        assert(t.skip(e + 1) =~= rest);
        lemma_head_structure(rest_lines, tail);
        if !is_content_length_line(spec_trim(line)) {
            assert(scan_content_length(t, 0) == scan_content_length(rest, 0));
            assert(lines_scan(lines, 0) == lines_scan(lines, 1));
            assert(lines_scan(lines, 1) == lines_scan(rest_lines, 0)) by {
                lemma_lines_scan_drop_first(lines, 1);
            }
        }
        assert(headers_end(t, 0) == e + 1 + headers_end(rest, 0));
    }
}

/// Head text from index `i >= 1` equals the head text of the list without
/// its first line, one position earlier.
proof fn lemma_head_drop_first(lines: Seq<Seq<char>>, i: int)
    requires
        1 <= i,
        lines.len() >= 1,
    ensures
        head_text(lines, i) == head_text(lines.drop_first(), i - 1),
    decreases lines.len() - i,
{
    if i < lines.len() {
        lemma_head_drop_first(lines, i + 1);
        assert(lines.drop_first()[i - 1] == lines[i]);
    }
}

/// Line scanning from index `i >= 1` equals scanning the list without its
/// first line, one position earlier.
proof fn lemma_lines_scan_drop_first(lines: Seq<Seq<char>>, i: int)
    requires
        1 <= i,
        lines.len() >= 1,
    ensures
        lines_scan(lines, i) == lines_scan(lines.drop_first(), i - 1),
    decreases lines.len() - i,
{
    if i < lines.len() {
        lemma_lines_scan_drop_first(lines, i + 1);
        assert(lines.drop_first()[i - 1] == lines[i]);
    }
}

/// Whether a trimmed header line carries the given name (ASCII
/// case-insensitively): the part before its first `:` is compared.
pub open spec fn is_header_line(line: Seq<char>, name: Seq<char>) -> bool {
    find_char(line, ':') < line.len() && eq_ignore_case(line.take(find_char(line, ':')), name)
}

/// Scans lines from `pos` for the first header of the given name, stopping
/// at a line that trims to nothing or at the text's end; yields the header's
/// trimmed value.
pub open spec fn scan_header(t: Seq<char>, pos: int, name: Seq<char>) -> Option<Seq<char>>
    decreases t.len() - pos,
{
    if pos < 0 || pos >= t.len() {
        None
    } else {
        let f = find_char(t.skip(pos), '\n');
        let e = if 0 <= f <= t.len() - pos {
            pos + f
        } else {
            t.len() as int
        };
        let line = spec_trim(t.subrange(pos, e));
        if line.len() == 0 {
            None
        } else if is_header_line(line, name) {
            Some(header_value(line))
        } else if e >= t.len() {
            None
        } else {
            scan_header(t, e + 1, name)
        }
    }
}

/// What the header lines hold under a name: the first line whose name part
/// matches decides.
pub open spec fn lines_header(lines: Seq<Seq<char>>, i: int, name: Seq<char>) -> Option<Seq<char>>
    decreases lines.len() - i,
{
    if !(0 <= i < lines.len()) {
        None
    } else {
        let line = spec_trim(lines[i]);
        if is_header_line(line, name) {
            Some(header_value(line))
        } else {
            lines_header(lines, i + 1, name)
        }
    }
}

proof fn lemma_scan_header_shift(t: Seq<char>, p: int, name: Seq<char>)
    requires
        0 <= p <= t.len(),
    ensures
        scan_header(t, p, name) == scan_header(t.skip(p), 0, name),
    decreases t.len() - p, 0int,
{
    let s = t.skip(p);
    if p == t.len() {
        assert(s.len() == 0);
    } else {
        let f = find_char(s, '\n');
        lemma_find_char(s, '\n');
        assert(s.skip(0) =~= s);
        let e = p + f;
        assert(t.subrange(p, e) =~= s.subrange(0, f));
        if spec_trim(t.subrange(p, e)).len() == 0 {
        } else {
            if e < t.len() {
                lemma_scan_header_shift(t, e + 1, name);
                assert(t.skip(e + 1) =~= s.skip(f + 1));
                lemma_scan_header_shift_inner(s, f + 1, name);
            } else {
                assert(f >= s.len());
            }
        }
    }
}

proof fn lemma_scan_header_shift_inner(s: Seq<char>, p: int, name: Seq<char>)
    requires
        0 <= p <= s.len(),
    ensures
        scan_header(s, p, name) == scan_header(s.skip(p), 0, name),
    decreases s.len() - p, 1int,
{
    lemma_scan_header_shift(s, p, name);
}

proof fn lemma_lines_header_drop_first(lines: Seq<Seq<char>>, i: int, name: Seq<char>)
    requires
        1 <= i,
        lines.len() >= 1,
    ensures
        lines_header(lines, i, name) == lines_header(lines.drop_first(), i - 1, name),
    decreases lines.len() - i,
{
    if i < lines.len() {
        lemma_lines_header_drop_first(lines, i + 1, name);
        assert(lines.drop_first()[i - 1] == lines[i]);
    }
}

/// How a built message's header scan under a name reads off its lines.
proof fn lemma_head_header(lines: Seq<Seq<char>>, tail: Seq<char>, name: Seq<char>)
    requires
        forall|i: int| 0 <= i < lines.len() ==> plain_header_line(#[trigger] lines[i]),
    ensures
        scan_header(head_text(lines, 0) + seq!['\r', '\n'] + tail, 0, name) == lines_header(
            lines,
            0,
            name,
        ),
    decreases lines.len(),
{
    let t = head_text(lines, 0) + seq!['\r', '\n'] + tail;
    if lines.len() == 0 {
        assert(head_text(lines, 0) =~= Seq::<char>::empty());
        assert(t =~= seq!['\r', '\n'] + tail);
        assert(t[0] == '\r' && t[1] == '\n');
        lemma_find_char_is(t.skip(0), '\n', 1);
        assert(t.skip(0) =~= t);
        assert(t.subrange(0, 1) =~= seq!['\r']);
        assert(spec_trim(seq!['\r']) =~= Seq::<char>::empty()) by {
            assert(seq!['\r'].drop_first() =~= Seq::<char>::empty());
            assert(is_space_char('\r'));
            assert(spec_trim_start(seq!['\r']) == spec_trim_start(Seq::<char>::empty()));
        }
    } else {
        let line = lines[0];
        let rest_lines = lines.drop_first();
        let rest = head_text(rest_lines, 0) + seq!['\r', '\n'] + tail;
        assert(head_text(lines, 0) =~= line + seq!['\r', '\n'] + head_text(lines, 1));
        assert(head_text(lines, 1) =~= head_text(rest_lines, 0)) by {
            lemma_head_drop_first(lines, 1);
        }
        assert(t =~= line + (seq!['\r', '\n'] + rest));
        let mid = seq!['\r', '\n'] + rest;
        assert(mid[0] == '\r' && mid[1] == '\n');
        lemma_find_char_is(mid, '\n', 1);
        lemma_find_char_append(line, mid, '\n');
        assert(find_char(t, '\n') == line.len() + 1);
        assert(t.skip(0) =~= t);
        let e = line.len() as int + 1;
        assert(t.subrange(0, e) =~= line.push('\r'));
        lemma_trim_push_space(line, '\r');
        assert(spec_trim(t.subrange(0, e)) == spec_trim(line));
        assert(spec_trim(line).len() > 0);
        assert(e < t.len());
        lemma_scan_header_shift(t, e + 1, name);
        assert(t.skip(e + 1) =~= rest);
        lemma_head_header(rest_lines, tail, name);
        if !is_header_line(spec_trim(line), name) {
            assert(lines_header(lines, 1, name) == lines_header(rest_lines, 0, name)) by {
                lemma_lines_header_drop_first(lines, 1, name);
            }
        }
    }
}

/// The bytes of a response: the head lines each closed by CRLF, the blank
/// line, then the body bytes verbatim.
pub open spec fn response_bytes(head_lines: Seq<Seq<u8>>, body: Seq<u8>) -> Seq<u8> {
    head_bytes(head_lines, 0) + seq![13u8, 10u8] + body
}

/// The head lines as bytes, each closed by CRLF.
pub open spec fn head_bytes(lines: Seq<Seq<u8>>, i: int) -> Seq<u8>
    decreases lines.len() - i,
{
    if !(0 <= i < lines.len()) {
        Seq::<u8>::empty()
    } else {
        lines[i] + seq![13u8, 10u8] + head_bytes(lines, i + 1)
    }
}

/// The head lines read as characters.
pub open spec fn latin1_lines(lines: Seq<Seq<u8>>) -> Seq<Seq<char>> {
    lines.map_values(|l: Seq<u8>| latin1(l))
}

proof fn lemma_latin1_head(lines: Seq<Seq<u8>>, i: int)
    requires
        0 <= i <= lines.len(),
    ensures
        latin1(head_bytes(lines, i)) == head_text(latin1_lines(lines), i),
    decreases lines.len() - i,
{
    if i < lines.len() {
        lemma_latin1_head(lines, i + 1);
        assert(latin1(lines[i] + seq![13u8, 10u8] + head_bytes(lines, i + 1)) =~= latin1(
            lines[i],
        ) + seq!['\r', '\n'] + latin1(head_bytes(lines, i + 1)));
        assert(latin1_lines(lines)[i] == latin1(lines[i]));
    } else {
        assert(latin1(head_bytes(lines, i)) =~= Seq::<char>::empty());
    }
}

/// How a whole response's bytes parse, given usable head lines: the body
/// length is what the lines declare, and the body starts right after the
/// blank line.
proof fn lemma_response_parse(head_lines: Seq<Seq<u8>>, body: Seq<u8>)
    requires
        forall|i: int|
            0 <= i < head_lines.len() ==> plain_header_line(
                latin1(#[trigger] head_lines[i]),
            ),
    ensures
        ({
            let bytes = response_bytes(head_lines, body);
            let t = latin1(bytes);
            &&& scan_content_length(t, 0) == lines_scan(latin1_lines(head_lines), 0)
            &&& headers_end(t, 0) == head_bytes(head_lines, 0).len() + 2
            &&& bytes.len() == head_bytes(head_lines, 0).len() + 2 + body.len()
            &&& forall|k: int|
                0 <= k <= body.len() ==> bytes.subrange(
                    head_bytes(head_lines, 0).len() as int + 2,
                    head_bytes(head_lines, 0).len() as int + 2 + k,
                ) =~= body.take(k)
        }),
{
    let bytes = response_bytes(head_lines, body);
    let t = latin1(bytes);
    let lv = latin1_lines(head_lines);
    lemma_latin1_head(head_lines, 0);
    assert(t =~= head_text(lv, 0) + seq!['\r', '\n'] + latin1(body));
    assert forall|i: int| 0 <= i < lv.len() implies plain_header_line(#[trigger] lv[i]) by {
        assert(lv[i] == latin1(head_lines[i]));
    }
    lemma_head_structure(lv, latin1(body));
    assert(head_text(lv, 0).len() == head_bytes(head_lines, 0).len()) by {
        assert(latin1(head_bytes(head_lines, 0)).len() == head_bytes(head_lines, 0).len());
    }
}

/// The decimal rendering of a number is all digits, opens with no sign,
/// and reads back as the same number.
proof fn lemma_dec_chars_value(n: nat)
    ensures
        is_digit_seq(dec_chars(n)),
        spec_uint_digits(dec_chars(n)) == dec_chars(n),
        dec_value(dec_chars(n)) == n,
        dec_chars(n).len() > 0,
        !is_space_char(dec_chars(n)[0]),
        !is_space_char(dec_chars(n).last()),
    decreases n,
{
    broadcast use vstd::utf8::char_u32_cast;

    assert(digit_val(dec_digit((n % 10) as nat)) == n % 10 && is_dec_digit(
        dec_digit((n % 10) as nat),
    )) by {
        let b = ((n % 10) + 48) as u8;
        assert((b as char) as u32 == b as u32);
    }
    assert(dec_value(Seq::<char>::empty()) == 0);
    if n < 10 {
        assert(dec_chars(n) =~= seq![dec_digit(n)]);
        assert(dec_chars(n).drop_last() =~= Seq::<char>::empty());
        assert(dec_chars(n).last() == dec_digit(n));
        assert(dec_value(dec_chars(n)) == 0 * 10 + digit_val(dec_digit(n)));
    } else {
        lemma_dec_chars_value(n / 10);
        let d = dec_chars(n / 10);
        assert(dec_chars(n) == d.push(dec_digit(n % 10)));
        assert(dec_chars(n).drop_last() =~= d);
        assert(dec_chars(n).last() == dec_digit((n % 10) as nat));
        assert(dec_value(dec_chars(n)) == dec_value(d) * 10 + digit_val(
            dec_digit((n % 10) as nat),
        ));
        assert(dec_value(dec_chars(n)) == (n / 10) * 10 + n % 10);
        assert((n / 10) * 10 + n % 10 == n) by {
            vstd::arithmetic::div_mod::lemma_fundamental_div_mod(n as int, 10);
        }
        assert(forall|j: int|
            0 <= j < d.len() ==> dec_chars(n)[j] == d[j] && is_dec_digit(#[trigger] dec_chars(
                n,
            )[j]));
        assert(is_dec_digit(dec_chars(n).last()));
    }
}

/// A text whose first and last characters are no whitespace trims to itself.
proof fn lemma_trim_noop(s: Seq<char>)
    requires
        s.len() > 0,
        !is_space_char(s[0]),
        !is_space_char(s.last()),
    ensures
        spec_trim(s) == s,
{
    assert(spec_trim_start(s) == s);
    assert(spec_trim_end(s) == s);
}

/// One leading space never changes a trim.
proof fn lemma_trim_leading_space(x: Seq<char>)
    ensures
        spec_trim(seq![' '] + x) == spec_trim(x),
{
    assert((seq![' '] + x).drop_first() =~= x);
    assert(is_space_char(' '));
    assert(spec_trim_start(seq![' '] + x) == spec_trim_start(x));
}

/// `"host"`, for header recovery.
pub open spec fn host_name() -> Seq<char> {
    seq!['h', 'o', 's', 't']
}

/// `"content-type"`, for header recovery.
pub open spec fn content_type_name() -> Seq<char> {
    seq!['c', 'o', 'n', 't', 'e', 'n', 't', '-', 't', 'y', 'p', 'e']
}

/// The method token a parser reads off a request text: up to the first
/// space.
pub open spec fn req_method(t: Seq<char>) -> Seq<char> {
    t.take(find_char(t, ' '))
}

/// The path token: between the first and second spaces.
pub open spec fn req_path(t: Seq<char>) -> Seq<char> {
    let a = t.skip(find_char(t, ' ') + 1);
    a.take(find_char(a, ' '))
}

/// The protocol token: after the second space, up to the line's end.
pub open spec fn req_version(t: Seq<char>) -> Seq<char> {
    let a = t.skip(find_char(t, ' ') + 1);
    let b = a.skip(find_char(a, ' ') + 1);
    b.take(find_char(b, '\r'))
}

/// Where a request's header lines start: past the request line.
pub open spec fn req_headers_start(t: Seq<char>) -> int {
    find_char(t, '\n') + 1
}

/// The request's header lines, as built: `Host`, then the optional
/// `Content-Type` and `Content-Length`, then `Connection: close`.
pub open spec fn req_header_lines(m: RequestModel) -> Seq<Seq<char>> {
    seq![host_prefix() + m.host->Some_0] + (match m.content_type {
        Some(ct) => seq![content_type_prefix() + ct],
        None => Seq::<Seq<char>>::empty(),
    }) + (match m.content_length {
        Some(n) => seq![content_length_prefix() + dec_chars(n)],
        None => Seq::<Seq<char>>::empty(),
    }) + seq![connection_close_line()]
}

/// The request line, as built.
pub open spec fn req_line(m: RequestModel) -> Seq<char> {
    method_chars(m.method) + seq![' '] + spec_path_or_default(m) + http_version_tail()
}

/// A clean token: no space and no line break anywhere in it.
pub open spec fn clean_token(s: Seq<char>) -> bool {
    forall|j: int| 0 <= j < s.len() ==> s[j] != ' ' && s[j] != '\r' && s[j] != '\n'
}

/// A clean header value: no line break, and no whitespace at either end.
pub open spec fn clean_value(s: Seq<char>) -> bool {
    &&& s.len() > 0
    &&& forall|j: int| 0 <= j < s.len() ==> s[j] != '\r' && s[j] != '\n'
    &&& spec_trim(s) == s
}

proof fn lemma_trim_eq_ends(s: Seq<char>)
    requires
        s.len() > 0,
        spec_trim(s) == s,
    ensures
        !is_space_char(s[0]),
        !is_space_char(s.last()),
{
    lemma_trim_start_len(s);
    lemma_trim_end_len(spec_trim_start(s));
    if is_space_char(s[0]) {
        lemma_trim_start_len(s.drop_first());
        lemma_trim_end_len(spec_trim_start(s.drop_first()));
        assert(spec_trim(s).len() < s.len());
    }
    if !is_space_char(s[0]) && is_space_char(s.last()) {
        assert(spec_trim_start(s) == s);
        lemma_trim_end_len(s.drop_last());
        assert(spec_trim_end(s).len() < s.len());
    }
}

proof fn lemma_trim_start_len(s: Seq<char>)
    ensures
        spec_trim_start(s).len() <= s.len(),
    decreases s.len(),
{
    if s.len() > 0 && is_space_char(s[0]) {
        lemma_trim_start_len(s.drop_first());
    }
}

proof fn lemma_trim_end_len(s: Seq<char>)
    ensures
        spec_trim_end(s).len() <= s.len(),
    decreases s.len(),
{
    if s.len() > 0 && is_space_char(s.last()) {
        lemma_trim_end_len(s.drop_last());
    }
}

/// Law: a request the builder emits reads back as its parts. A conforming
/// reader recovers the method, the path, the protocol, each header it was
/// given — `Host` and the optional `Content-Type` and `Content-Length` —
/// and the body verbatim, from the text alone. Valid inputs are a set host,
/// a path without spaces or line breaks, header values without line breaks
/// or outer whitespace, and a length the scanner's type can carry.
/// The built request text is its lines each closed by CRLF, a blank line,
/// then the body.
#[verifier::rlimit(100)]
proof fn lemma_request_text_shape(m: RequestModel)
    requires
        m.host is Some,
    ensures
        ({
            let body = match m.body {
                Some(b) => b,
                None => Seq::<char>::empty(),
            };
            spec_request_text(m) == head_text(seq![req_line(m)] + req_header_lines(m), 0) + seq![
                '\r',
                '\n',
            ] + body
        }),
{
    let body = match m.body {
        Some(b) => b,
        None => Seq::<char>::empty(),
    };
    let rl = req_line(m);
    let hdrs = req_header_lines(m);
    let all_lines = seq![rl] + hdrs;
    let t = spec_request_text(m);
    let host = m.host->Some_0;
    assert(head_text(hdrs, 0) =~= (host_prefix() + host) + seq!['\r', '\n'] + (match m
        .content_type {
        Some(ct) => content_type_prefix() + ct + seq!['\r', '\n'],
        None => Seq::<char>::empty(),
    }) + (match m.content_length {
        Some(n) => content_length_prefix() + dec_chars(n) + seq!['\r', '\n'],
        None => Seq::<char>::empty(),
    }) + (connection_close_line() + seq!['\r', '\n'])) by {
        match (m.content_type, m.content_length) {
            (Some(ct), Some(n)) => {
                assert(hdrs.len() == 4);
                assert(head_text(hdrs, 4) =~= Seq::<char>::empty());
                assert(head_text(hdrs, 3) == hdrs[3] + seq!['\r', '\n'] + head_text(hdrs, 4));
                assert(head_text(hdrs, 2) == hdrs[2] + seq!['\r', '\n'] + head_text(hdrs, 3));
                assert(head_text(hdrs, 1) == hdrs[1] + seq!['\r', '\n'] + head_text(hdrs, 2));
                assert(head_text(hdrs, 0) == hdrs[0] + seq!['\r', '\n'] + head_text(hdrs, 1));
            },
            (Some(ct), None) => {
                assert(hdrs.len() == 3);
                assert(head_text(hdrs, 3) =~= Seq::<char>::empty());
                assert(head_text(hdrs, 2) == hdrs[2] + seq!['\r', '\n'] + head_text(hdrs, 3));
                assert(head_text(hdrs, 1) == hdrs[1] + seq!['\r', '\n'] + head_text(hdrs, 2));
                assert(head_text(hdrs, 0) == hdrs[0] + seq!['\r', '\n'] + head_text(hdrs, 1));
            },
            (None, Some(n)) => {
                assert(hdrs.len() == 3);
                assert(head_text(hdrs, 3) =~= Seq::<char>::empty());
                assert(head_text(hdrs, 2) == hdrs[2] + seq!['\r', '\n'] + head_text(hdrs, 3));
                assert(head_text(hdrs, 1) == hdrs[1] + seq!['\r', '\n'] + head_text(hdrs, 2));
                assert(head_text(hdrs, 0) == hdrs[0] + seq!['\r', '\n'] + head_text(hdrs, 1));
            },
            (None, None) => {
                assert(hdrs.len() == 2);
                assert(head_text(hdrs, 2) =~= Seq::<char>::empty());
                assert(head_text(hdrs, 1) == hdrs[1] + seq!['\r', '\n'] + head_text(hdrs, 2));
                assert(head_text(hdrs, 0) == hdrs[0] + seq!['\r', '\n'] + head_text(hdrs, 1));
            },
        }
    }
    assert(head_text(all_lines, 0) =~= rl + seq!['\r', '\n'] + head_text(hdrs, 0)) by {
        lemma_head_drop_first(all_lines, 1);
        assert(all_lines.drop_first() =~= hdrs);
    }
    assert(t =~= head_text(all_lines, 0) + seq!['\r', '\n'] + body) by {
        assert(crlf() =~= seq!['\r', '\n']);
    }
}

#[verifier::rlimit(100)]
pub proof fn lemma_request_round_trip(m: RequestModel)
    requires
        m.host is Some,
        clean_token(spec_path_or_default(m)),
        spec_path_or_default(m).len() > 0,
        clean_value(m.host->Some_0),
        m.content_type is Some ==> clean_value(m.content_type->Some_0),
        m.content_length is Some ==> m.content_length->Some_0 <= usize::MAX,
    ensures
        ({
            let t = spec_request_text(m);
            &&& req_method(t) == method_chars(m.method)
            &&& req_path(t) == spec_path_or_default(m)
            &&& req_version(t) == seq!['H', 'T', 'T', 'P', '/', '1', '.', '1']
            &&& scan_header(t, req_headers_start(t), host_name()) == Some(m.host->Some_0)
            &&& scan_header(t, req_headers_start(t), content_type_name()) == (match m
                .content_type {
                Some(ct) => Some(ct),
                None => None::<Seq<char>>,
            })
            &&& scan_content_length(t, req_headers_start(t)) == (match m.content_length {
                Some(n) => BodyLength::Given(n),
                None => BodyLength::Absent,
            })
            &&& t.skip(headers_end(t, 0)) == (match m.body {
                Some(b) => b,
                None => Seq::<char>::empty(),
            })
        }),
{
    let t = spec_request_text(m);
    let p = spec_path_or_default(m);
    let host = m.host->Some_0;
    let body = match m.body {
        Some(b) => b,
        None => Seq::<char>::empty(),
    };
    let rl = req_line(m);
    let hdrs = req_header_lines(m);
    let all_lines = seq![rl] + hdrs;
    lemma_request_text_shape(m);
    assert(t == head_text(all_lines, 0) + seq!['\r', '\n'] + body);
    assert(head_text(all_lines, 0) =~= rl + seq!['\r', '\n'] + head_text(hdrs, 0)) by {
        lemma_head_drop_first(all_lines, 1);
        assert(all_lines.drop_first() =~= hdrs);
    }
    // the lines are usable header lines
    assert(method_chars(m.method).len() > 0 && !is_space_char(method_chars(m.method)[0])) by {
        match m.method {
            Method::Get => assert(method_chars(m.method)[0] == 'G'),
            Method::Post => assert(method_chars(m.method)[0] == 'P'),
            Method::Delete => assert(method_chars(m.method)[0] == 'D'),
        }
    }
    lemma_dec_chars_value(match m.content_length {
        Some(n) => n,
        None => 0,
    });
    lemma_trim_eq_ends(host);
    if m.content_type is Some {
        lemma_trim_eq_ends(m.content_type->Some_0);
    }
    assert forall|i: int| 0 <= i < all_lines.len() implies plain_header_line(
        #[trigger] all_lines[i],
    ) by {
        lemma_plain_lines(m, all_lines, i);
    }
    // body position
    lemma_head_structure(all_lines, body);
    assert(t.skip(headers_end(t, 0)) =~= body);
    // header scans start after the request line
    assert(forall|j: int| 0 <= j < rl.len() ==> rl[j] != '\n') by {
        lemma_plain_lines(m, all_lines, 0);
    }
    let mid = seq!['\r', '\n'] + (head_text(hdrs, 0) + seq!['\r', '\n'] + body);
    assert(t =~= rl + mid);
    assert(mid[0] == '\r' && mid[1] == '\n');
    lemma_find_char_is(mid, '\n', 1);
    lemma_find_char_append(rl, mid, '\n');
    assert(req_headers_start(t) == rl.len() + 2);
    assert(t.skip(rl.len() as int + 2) =~= head_text(hdrs, 0) + seq!['\r', '\n'] + body);
    lemma_scan_shift(t, rl.len() as int + 2);
    lemma_scan_header_shift(t, rl.len() as int + 2, host_name());
    lemma_scan_header_shift(t, rl.len() as int + 2, content_type_name());
    assert forall|i: int| 0 <= i < hdrs.len() implies plain_header_line(#[trigger] hdrs[i]) by {
        assert(hdrs[i] == all_lines[i + 1]);
        lemma_plain_lines(m, all_lines, i + 1);
    }
    lemma_head_structure(hdrs, body);
    lemma_head_header(hdrs, body, host_name());
    lemma_head_header(hdrs, body, content_type_name());
    lemma_header_lines_content(m);
    // request line parts
    lemma_request_line_parts(m, t, mid);
}

/// Every line of the built request is a usable header line: no line break,
/// and a nonempty trim.
proof fn lemma_plain_lines(m: RequestModel, all_lines: Seq<Seq<char>>, i: int)
    requires
        m.host is Some,
        clean_token(spec_path_or_default(m)),
        spec_path_or_default(m).len() > 0,
        clean_value(m.host->Some_0),
        m.content_type is Some ==> clean_value(m.content_type->Some_0),
        all_lines == seq![req_line(m)] + req_header_lines(m),
        0 <= i < all_lines.len(),
    ensures
        plain_header_line(all_lines[i]),
{
    let rl = req_line(m);
    let hdrs = req_header_lines(m);
    lemma_dec_chars_value(match m.content_length {
        Some(n) => n,
        None => 0,
    });
    lemma_trim_eq_ends(m.host->Some_0);
    if m.content_type is Some {
        lemma_trim_eq_ends(m.content_type->Some_0);
    }
    if i == 0 {
        assert(all_lines[0] == rl);
        assert(rl[0] == method_chars(m.method)[0]) by {
            assert(method_chars(m.method).len() > 0) by {
                match m.method {
                    Method::Get => {},
                    Method::Post => {},
                    Method::Delete => {},
                }
            }
        }
        assert(!is_space_char(rl[0]) && rl[0] != '\n') by {
            match m.method {
                Method::Get => assert(rl[0] == 'G'),
                Method::Post => assert(rl[0] == 'P'),
                Method::Delete => assert(rl[0] == 'D'),
            }
        }
        assert(rl.last() == '1') by {
            assert(http_version_tail().last() == '1');
        }
        assert(forall|j: int| 0 <= j < rl.len() ==> rl[j] != '\n') by {
            assert(forall|j: int|
                0 <= j < method_chars(m.method).len() ==> method_chars(m.method)[j] != '\n') by {
                match m.method {
                    Method::Get => {},
                    Method::Post => {},
                    Method::Delete => {},
                }
            }
        }
        lemma_trim_noop(rl);
    } else {
        let line = all_lines[i];
        assert(line == hdrs[i - 1]);
        lemma_req_header_line_shape(m, i - 1);
    }
}

/// Which built line stands at which header slot.
proof fn lemma_req_header_line_is(m: RequestModel, k: int)
    requires
        0 <= k < req_header_lines(m).len(),
    ensures
        ({
            let hdrs = req_header_lines(m);
            let line = hdrs[k];
            ||| (k == 0 && line == host_prefix() + m.host->Some_0)
            ||| (m.content_type is Some && k == 1 && line == content_type_prefix()
                + m.content_type->Some_0)
            ||| (m.content_length is Some && k == (if m.content_type is Some {
                2int
            } else {
                1int
            }) && line == content_length_prefix() + dec_chars(m.content_length->Some_0))
            ||| (k == req_header_lines(m).len() - 1 && line == connection_close_line())
        }),
{
}

/// Each built header line starts with its ASCII name, ends with a non-space
/// character, and holds no line break.
proof fn lemma_req_header_line_shape(m: RequestModel, k: int)
    requires
        m.host is Some,
        clean_value(m.host->Some_0),
        m.content_type is Some ==> clean_value(m.content_type->Some_0),
        0 <= k < req_header_lines(m).len(),
    ensures
        plain_header_line(req_header_lines(m)[k]),
{
    let hdrs = req_header_lines(m);
    let line = hdrs[k];
    lemma_dec_chars_value(match m.content_length {
        Some(n) => n,
        None => 0,
    });
    lemma_trim_eq_ends(m.host->Some_0);
    if m.content_type is Some {
        lemma_trim_eq_ends(m.content_type->Some_0);
    }
    lemma_req_header_line_is(m, k);
    if line == host_prefix() + m.host->Some_0 {
        assert(line[0] == 'H');
        assert(line.last() == m.host->Some_0.last());
        lemma_trim_noop(line);
    } else if m.content_type is Some && line == content_type_prefix() + m.content_type->Some_0 {
        assert(line[0] == 'C');
        assert(line.last() == m.content_type->Some_0.last());
        lemma_trim_noop(line);
    } else if m.content_length is Some && line == content_length_prefix() + dec_chars(
        m.content_length->Some_0,
    ) {
        assert(line[0] == 'C');
        assert(line.last() == dec_chars(m.content_length->Some_0).last());
        assert(!is_space_char(line.last())) by {
            assert(is_dec_digit(dec_chars(m.content_length->Some_0).last()));
        }
        lemma_trim_noop(line);
    } else {
        assert(line == connection_close_line());
        assert(line[0] == 'C' && line.last() == 'e');
        lemma_trim_noop(line);
    }
}

/// The name slice and the value of the `Host` line.
proof fn lemma_host_line_facts(host: Seq<char>)
    requires
        clean_value(host),
    ensures
        ({
            let line = host_prefix() + host;
            &&& find_char(line, ':') == 4
            &&& is_header_line(line, host_name())
            &&& !is_header_line(line, content_type_name())
            &&& !is_content_length_line(line)
            &&& header_value(line) == host
        }),
{
    let line = host_prefix() + host;
    assert forall|j: int| 0 <= j < 4 implies line[j] != ':' by {
        assert(line[j] == host_prefix()[j]);
    }
    assert(line[4] == ':');
    lemma_find_char_is(line, ':', 4);
    let name = line.take(4);
    assert(name =~= seq!['H', 'o', 's', 't']);
    assert(eq_ignore_case(name, host_name())) by {
        assert(lower_char(name[0]) == lower_char(host_name()[0]));
        assert(lower_char(name[1]) == lower_char(host_name()[1]));
        assert(lower_char(name[2]) == lower_char(host_name()[2]));
        assert(lower_char(name[3]) == lower_char(host_name()[3]));
    }
    assert(line.skip(5) =~= seq![' '] + host);
    lemma_trim_leading_space(host);
    assert(header_value(line) == spec_trim(host));
}

/// The name slice and the value of the `Content-Type` line.
proof fn lemma_ct_line_facts(ct: Seq<char>)
    requires
        clean_value(ct),
    ensures
        ({
            let line = content_type_prefix() + ct;
            &&& find_char(line, ':') == 12
            &&& is_header_line(line, content_type_name())
            &&& !is_header_line(line, host_name())
            &&& !is_content_length_line(line)
            &&& header_value(line) == ct
        }),
{
    let line = content_type_prefix() + ct;
    assert forall|j: int| 0 <= j < 12 implies line[j] != ':' by {
        assert(line[j] == content_type_prefix()[j]);
    }
    assert(line[12] == ':');
    lemma_find_char_is(line, ':', 12);
    let name = line.take(12);
    assert(name =~= seq!['C', 'o', 'n', 't', 'e', 'n', 't', '-', 'T', 'y', 'p', 'e']);
    assert(eq_ignore_case(name, content_type_name())) by {
        assert(lower_char(name[0]) == lower_char(content_type_name()[0]));
        assert(lower_char(name[1]) == lower_char(content_type_name()[1]));
        assert(lower_char(name[2]) == lower_char(content_type_name()[2]));
        assert(lower_char(name[3]) == lower_char(content_type_name()[3]));
        assert(lower_char(name[4]) == lower_char(content_type_name()[4]));
        assert(lower_char(name[5]) == lower_char(content_type_name()[5]));
        assert(lower_char(name[6]) == lower_char(content_type_name()[6]));
        assert(lower_char(name[7]) == lower_char(content_type_name()[7]));
        assert(lower_char(name[8]) == lower_char(content_type_name()[8]));
        assert(lower_char(name[9]) == lower_char(content_type_name()[9]));
        assert(lower_char(name[10]) == lower_char(content_type_name()[10]));
        assert(lower_char(name[11]) == lower_char(content_type_name()[11]));
    }
    assert(line.skip(13) =~= seq![' '] + ct);
    lemma_trim_leading_space(ct);
    assert(header_value(line) == spec_trim(ct));
}

/// The name slice and the value of the `Content-Length` line.
proof fn lemma_cl_line_facts(n: nat)
    ensures
        ({
            let line = content_length_prefix() + dec_chars(n);
            &&& find_char(line, ':') == 14
            &&& is_content_length_line(line)
            &&& !is_header_line(line, host_name())
            &&& !is_header_line(line, content_type_name())
            &&& header_value(line) == dec_chars(n)
        }),
{
    let line = content_length_prefix() + dec_chars(n);
    lemma_dec_chars_value(n);
    assert forall|j: int| 0 <= j < 14 implies line[j] != ':' by {
        assert(line[j] == content_length_prefix()[j]);
    }
    assert(line[14] == ':');
    lemma_find_char_is(line, ':', 14);
    let name = line.take(14);
    assert(name =~= seq!['C', 'o', 'n', 't', 'e', 'n', 't', '-', 'L', 'e', 'n', 'g', 't', 'h']);
    assert(eq_ignore_case(name, content_length_name())) by {
        assert(lower_char(name[0]) == lower_char(content_length_name()[0]));
        assert(lower_char(name[1]) == lower_char(content_length_name()[1]));
        assert(lower_char(name[2]) == lower_char(content_length_name()[2]));
        assert(lower_char(name[3]) == lower_char(content_length_name()[3]));
        assert(lower_char(name[4]) == lower_char(content_length_name()[4]));
        assert(lower_char(name[5]) == lower_char(content_length_name()[5]));
        assert(lower_char(name[6]) == lower_char(content_length_name()[6]));
        assert(lower_char(name[7]) == lower_char(content_length_name()[7]));
        assert(lower_char(name[8]) == lower_char(content_length_name()[8]));
        assert(lower_char(name[9]) == lower_char(content_length_name()[9]));
        assert(lower_char(name[10]) == lower_char(content_length_name()[10]));
        assert(lower_char(name[11]) == lower_char(content_length_name()[11]));
        assert(lower_char(name[12]) == lower_char(content_length_name()[12]));
        assert(lower_char(name[13]) == lower_char(content_length_name()[13]));
    }
    assert(line.skip(15) =~= seq![' '] + dec_chars(n));
    lemma_trim_leading_space(dec_chars(n));
    lemma_trim_noop(dec_chars(n));
    assert(header_value(line) == dec_chars(n));
}

/// The name slice of the `Connection: close` line matches no scanned name.
proof fn lemma_conn_line_facts()
    ensures
        ({
            let line = connection_close_line();
            &&& find_char(line, ':') == 10
            &&& !is_header_line(line, host_name())
            &&& !is_header_line(line, content_type_name())
            &&& !is_content_length_line(line)
        }),
{
    let line = connection_close_line();
    assert forall|j: int| 0 <= j < 10 implies line[j] != ':' by {
    }
    assert(line[10] == ':');
    lemma_find_char_is(line, ':', 10);
    assert(line.take(10).len() == 10);
}

/// What the built header lines hold: the host under `host`, the content
/// type under `content-type` where set, and the declared body length.
proof fn lemma_header_lines_content(m: RequestModel)
    requires
        m.host is Some,
        clean_value(m.host->Some_0),
        m.content_type is Some ==> clean_value(m.content_type->Some_0),
        m.content_length is Some ==> m.content_length->Some_0 <= usize::MAX,
    ensures
        lines_header(req_header_lines(m), 0, host_name()) == Some(m.host->Some_0),
        lines_header(req_header_lines(m), 0, content_type_name()) == (match m.content_type {
            Some(ct) => Some(ct),
            None => None::<Seq<char>>,
        }),
        lines_scan(req_header_lines(m), 0) == (match m.content_length {
            Some(n) => BodyLength::Given(n),
            None => BodyLength::Absent,
        }),
{
    let hdrs = req_header_lines(m);
    let host = m.host->Some_0;
    lemma_host_line_facts(host);
    lemma_conn_line_facts();
    lemma_trim_eq_ends(host);
    assert forall|k: int| 0 <= k < hdrs.len() implies spec_trim(#[trigger] hdrs[k]) == hdrs[k] by {
        lemma_req_header_line_shape(m, k);
        lemma_req_header_line_is(m, k);
        if hdrs[k] == host_prefix() + host {
            lemma_trim_noop(hdrs[k]);
        } else if m.content_type is Some && hdrs[k] == content_type_prefix()
            + m.content_type->Some_0 {
            lemma_trim_eq_ends(m.content_type->Some_0);
            lemma_trim_noop(hdrs[k]);
        } else if m.content_length is Some && hdrs[k] == content_length_prefix() + dec_chars(
            m.content_length->Some_0,
        ) {
            lemma_dec_chars_value(m.content_length->Some_0);
            lemma_trim_noop(hdrs[k]);
        } else {
            lemma_trim_noop(hdrs[k]);
        }
    }
    if m.content_type is Some {
        lemma_ct_line_facts(m.content_type->Some_0);
    }
    if m.content_length is Some {
        lemma_cl_line_facts(m.content_length->Some_0);
        lemma_dec_chars_value(m.content_length->Some_0);
    }
    match (m.content_type, m.content_length) {
        (Some(ct), Some(n)) => {
            assert(hdrs.len() == 4);
            assert(hdrs[0] == host_prefix() + host);
            assert(hdrs[1] == content_type_prefix() + ct);
            assert(hdrs[2] == content_length_prefix() + dec_chars(n));
            assert(hdrs[3] == connection_close_line());
            assert(lines_header(hdrs, 1, content_type_name()) == Some(ct));
            assert(lines_scan(hdrs, 4) == BodyLength::Absent);
            assert(lines_scan(hdrs, 3) == BodyLength::Absent);
            assert(lines_scan(hdrs, 2) == BodyLength::Given(n));
            assert(lines_scan(hdrs, 1) == BodyLength::Given(n));
            assert(lines_scan(hdrs, 0) == BodyLength::Given(n));
        },
        (Some(ct), None) => {
            assert(hdrs.len() == 3);
            assert(hdrs[0] == host_prefix() + host);
            assert(hdrs[1] == content_type_prefix() + ct);
            assert(hdrs[2] == connection_close_line());
            assert(lines_header(hdrs, 1, content_type_name()) == Some(ct));
            assert(lines_scan(hdrs, 3) == BodyLength::Absent);
            assert(lines_scan(hdrs, 2) == BodyLength::Absent);
            assert(lines_scan(hdrs, 1) == BodyLength::Absent);
            assert(lines_header(hdrs, 4, host_name()) is None);
            assert(lines_header(hdrs, 3, host_name()) is None);
            assert(lines_scan(hdrs, 0) == BodyLength::Absent);
        },
        (None, Some(n)) => {
            assert(hdrs.len() == 3);
            assert(hdrs[0] == host_prefix() + host);
            assert(hdrs[1] == content_length_prefix() + dec_chars(n));
            assert(hdrs[2] == connection_close_line());
            assert(lines_header(hdrs, 3, content_type_name()) is None);
            assert(lines_header(hdrs, 2, content_type_name()) is None);
            assert(lines_header(hdrs, 1, content_type_name()) is None);
            assert(lines_scan(hdrs, 3) == BodyLength::Absent);
            assert(lines_scan(hdrs, 2) == BodyLength::Absent);
            assert(lines_scan(hdrs, 1) == BodyLength::Given(n));
            assert(lines_scan(hdrs, 0) == BodyLength::Given(n));
        },
        (None, None) => {
            assert(hdrs.len() == 2);
            assert(hdrs[0] == host_prefix() + host);
            assert(hdrs[1] == connection_close_line());
            assert(lines_header(hdrs, 2, content_type_name()) is None);
            assert(lines_header(hdrs, 1, content_type_name()) is None);
            assert(lines_scan(hdrs, 2) == BodyLength::Absent);
            assert(lines_scan(hdrs, 1) == BodyLength::Absent);
            assert(lines_scan(hdrs, 0) == BodyLength::Absent);
            assert(lines_header(hdrs, 2, host_name()) is None);
        },
    }
}

/// The request line of the built text reads back as method, path and
/// protocol.
#[verifier::rlimit(100)]
proof fn lemma_request_line_parts(m: RequestModel, t: Seq<char>, mid: Seq<char>)
    requires
        m.host is Some,
        clean_token(spec_path_or_default(m)),
        spec_path_or_default(m).len() > 0,
        t == req_line(m) + mid,
        mid.len() >= 1,
        mid[0] == '\r',
    ensures
        req_method(t) == method_chars(m.method),
        req_path(t) == spec_path_or_default(m),
        req_version(t) == seq!['H', 'T', 'T', 'P', '/', '1', '.', '1'],
{
    let p = spec_path_or_default(m);
    let mc = method_chars(m.method);
    let rest1 = seq![' '] + p + http_version_tail() + mid;
    assert(t =~= mc + rest1);
    assert(forall|j: int| 0 <= j < mc.len() ==> mc[j] != ' ') by {
        match m.method {
            Method::Get => {},
            Method::Post => {},
            Method::Delete => {},
        }
    }
    assert(rest1[0] == ' ');
    lemma_find_char_is(rest1, ' ', 0);
    lemma_find_char_append(mc, rest1, ' ');
    assert(find_char(t, ' ') == mc.len());
    assert(req_method(t) =~= mc);
    let a = t.skip(mc.len() as int + 1);
    let resta = http_version_tail() + mid;
    assert(a =~= p + resta);
    assert(resta[0] == ' ') by {
        assert(http_version_tail()[0] == ' ');
    }
    lemma_find_char_is(resta, ' ', 0);
    lemma_find_char_append(p, resta, ' ');
    assert(find_char(a, ' ') == p.len());
    assert(req_path(t) =~= p);
    let b = a.skip(p.len() as int + 1);
    let ver = seq!['H', 'T', 'T', 'P', '/', '1', '.', '1'];
    assert(b =~= ver + mid);
    assert(forall|j: int| 0 <= j < 8 ==> ver[j] != '\r');
    lemma_find_char_is(mid, '\r', 0);
    lemma_find_char_append(ver, mid, '\r');
    assert(find_char(b, '\r') == 8);
    assert(req_version(t) =~= ver);
}

/// Law: a response whose head declares `Content-Length: n` — whatever the
/// header's letter case, whatever other headers stand around it — and whose
/// stream carries at least `n` body bytes parses to exactly those `n` bytes,
/// UTF-8 decoded.
pub proof fn lemma_content_length_framing(head_lines: Seq<Seq<u8>>, body: Seq<u8>, n: nat)
    requires
        forall|i: int|
            0 <= i < head_lines.len() ==> plain_header_line(
                latin1(#[trigger] head_lines[i]),
            ),
        lines_scan(latin1_lines(head_lines), 0) == BodyLength::Given(n),
        n > 0,
        body.len() >= n,
        vstd::utf8::valid_utf8(body.take(n as int)),
    ensures
        spec_parse_response_body(response_bytes(head_lines, body)) == Ok::<
            Seq<char>,
            HttpErrorModel,
        >(vstd::utf8::decode_utf8(body.take(n as int))),
{
    lemma_response_parse(head_lines, body);
}

/// Law: a response with no `Content-Length` header parses to an empty body —
/// it is not an error.
pub proof fn lemma_missing_content_length_is_empty_body(head_lines: Seq<Seq<u8>>, body: Seq<u8>)
    requires
        forall|i: int|
            0 <= i < head_lines.len() ==> plain_header_line(
                latin1(#[trigger] head_lines[i]),
            ),
        lines_scan(latin1_lines(head_lines), 0) == BodyLength::Absent,
    ensures
        spec_parse_response_body(response_bytes(head_lines, body)) == Ok::<
            Seq<char>,
            HttpErrorModel,
        >(Seq::<char>::empty()),
{
    lemma_response_parse(head_lines, body);
}

/// Law: a stream that closes after declaring `Content-Length: n` but
/// delivering fewer than `n` body bytes parses to the unexpected-end-of-
/// stream error — never to a truncated success.
pub proof fn lemma_short_body_is_eof(head_lines: Seq<Seq<u8>>, body: Seq<u8>, n: nat)
    requires
        forall|i: int|
            0 <= i < head_lines.len() ==> plain_header_line(
                latin1(#[trigger] head_lines[i]),
            ),
        lines_scan(latin1_lines(head_lines), 0) == BodyLength::Given(n),
        body.len() < n,
    ensures
        spec_parse_response_body(response_bytes(head_lines, body)) == Err::<
            Seq<char>,
            HttpErrorModel,
        >(HttpErrorModel::UnexpectedEof),
{
    lemma_response_parse(head_lines, body);
}

} // verus!
