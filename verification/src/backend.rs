//! The backend's request handling, at the level the protocol fixes: the
//! route table over method and path, the topping-store edits each route
//! makes, and the record normalisation of the transaction log. Reading and
//! writing the stores, and serving the sockets, are the caller's.

use vstd::prelude::*;

use crate::strutil::{
    chars_eq_ignore_case, chars_to_string, dec_chars, dec_value, eq_ignore_case, find_char,
    find_char_at, is_uint_in_range, lemma_find_char, parse_u32_chars, push_char, split_char,
    split_chars, split_lines, split_lines_chars, spec_trim, spec_uint_digits, str_chars,
    trim_chars, u64_to_string, views_of,
};

verus! {

/// Where a request goes: one of the six fixed routes, a bad request (a
/// topping delete without a usable `name` parameter), or no route at all.
#[derive(Debug, PartialEq, Eq)]
pub enum Route {
    /// `GET /`: the prebuilt-pizza catalog text.
    Root,
    /// `GET /toppings`: the topping catalog text.
    GetToppings,
    /// `POST /toppings`: append one validated topping record.
    AddTopping,
    /// `DELETE /toppings?name=X`: drop every record named `X`.
    DeleteTopping { name: String },
    /// `DELETE /toppings/clear`: truncate the topping store.
    ClearToppings,
    /// `POST /transaction`: append one transaction record.
    StoreTransaction,
    /// A topping delete whose query names no topping.
    BadRequest,
    /// Anything else.
    NotFound,
}

/// A hexadecimal digit's value, or 16 for any other character.
pub open spec fn hex_val(c: char) -> nat {
    if '0' <= c && c <= '9' {
        ((c as u8) - 48) as nat
    } else if 'a' <= c && c <= 'f' {
        ((c as u8) - 87) as nat
    } else if 'A' <= c && c <= 'F' {
        ((c as u8) - 55) as nat
    } else {
        16
    }
}

/// Percent-decoding of a query value as the form encoding reads it: `+` is
/// a space, `%` before two hex digits is that byte, anything else is the
/// character's own (sub-256) code; a stray `%` stays itself.
pub open spec fn spec_query_decode(s: Seq<char>) -> Seq<u8>
    decreases s.len(),
{
    if s.len() == 0 {
        Seq::<u8>::empty()
    } else if s[0] == '+' {
        seq![32u8] + spec_query_decode(s.drop_first())
    } else if s[0] == '%' && s.len() >= 3 && hex_val(s[1]) < 16 && hex_val(s[2]) < 16 {
        seq![(hex_val(s[1]) * 16 + hex_val(s[2])) as u8] + spec_query_decode(s.skip(3))
    } else if (s[0] as u32) < 256 {
        seq![s[0] as u8] + spec_query_decode(s.drop_first())
    } else {
        spec_query_decode(s.drop_first())
    }
}

fn hex_val_exec(c: char) -> (r: u8)
    ensures
        r as nat == hex_val(c),
{
    if '0' <= c && c <= '9' {
        (c as u8) - 48
    } else if 'a' <= c && c <= 'f' {
        (c as u8) - 87
    } else if 'A' <= c && c <= 'F' {
        (c as u8) - 55
    } else {
        16
    }
}

/// Percent-decodes a query value to bytes.
fn query_decode(v: &[char]) -> (r: Vec<u8>)
    ensures
        r@ == spec_query_decode(v@),
{
    let n: usize = v.len();
    let mut r: Vec<u8> = Vec::new();
    let mut i: usize = 0;
    proof {
        assert(v@.skip(0) =~= v@);
        assert(spec_query_decode(v@) =~= r@ + spec_query_decode(v@.skip(0)));
    }
    while i < n
        invariant
            i <= n,
            n == v@.len(),
            spec_query_decode(v@) == r@ + spec_query_decode(v@.skip(i as int)),
        decreases n - i,
    {
        let ghost rest = v@.skip(i as int);
        proof {
            assert(rest[0] == v@[i as int]);
            assert(rest.drop_first() =~= v@.skip(i + 1));
        }
        let c = v[i];
        if c == '+' {
            proof {
                assert(r@ + (seq![32u8] + spec_query_decode(v@.skip(i + 1))) =~= r@.push(32u8)
                    + spec_query_decode(v@.skip(i + 1)));
            }
            r.push(32);
            i = i + 1;
        } else if c == '%' && n - i > 2 && hex_val_exec(v[i + 1]) < 16 && hex_val_exec(v[i + 2])
            < 16 {
            let h = hex_val_exec(v[i + 1]);
            let l = hex_val_exec(v[i + 2]);
            let b: u8 = h * 16 + l;
            proof {
                assert(rest.len() >= 3);
                assert(rest[1] == v@[i + 1] && rest[2] == v@[i + 2]);
                assert(rest.skip(3) =~= v@.skip(i + 3));
                assert(r@ + (seq![b] + spec_query_decode(v@.skip(i + 3))) =~= r@.push(b)
                    + spec_query_decode(v@.skip(i + 3)));
            }
            r.push(b);
            i = i + 3;
        } else {
            proof {
                if rest[0] == '%' && rest.len() >= 3 && hex_val(rest[1]) < 16 && hex_val(rest[2])
                    < 16 {
                    assert(false);
                }
            }
            if (c as u32) < 256 {
                let b: u8 = c as u8;
                proof {
                    assert(r@ + (seq![b] + spec_query_decode(v@.skip(i + 1))) =~= r@.push(b)
                        + spec_query_decode(v@.skip(i + 1)));
                }
                r.push(b);
            }
            i = i + 1;
        }
    }
    proof {
        assert(v@.skip(n as int).len() == 0);
        assert(r@ + spec_query_decode(v@.skip(n as int)) =~= r@);
    }
    r
}

/// `"name"`, the one query parameter the topping delete reads.
pub open spec fn name_key() -> Seq<char> {
    seq!['n', 'a', 'm', 'e']
}

/// The first `name=` value among the `&`-separated query pairs, decoded;
/// nothing when no pair has that key or its decoded value is not UTF-8.
pub open spec fn spec_query_name(pieces: Seq<Seq<char>>, i: int) -> Option<Seq<char>>
    decreases pieces.len() - i,
{
    if !(0 <= i < pieces.len()) {
        None
    } else {
        let p = pieces[i];
        let e = find_char(p, '=');
        if 0 <= e < p.len() && p.take(e) == name_key() {
            let bytes = spec_query_decode(p.skip(e + 1));
            if vstd::utf8::valid_utf8(bytes) {
                Some(vstd::utf8::decode_utf8(bytes))
            } else {
                None
            }
        } else {
            spec_query_name(pieces, i + 1)
        }
    }
}

fn query_name(query: &[char]) -> (r: Option<String>)
    ensures
        ({
            let m = spec_query_name(split_chars_spec(query@), 0);
            &&& r is Some <==> m is Some
            &&& r is Some ==> r->0@ == m->Some_0
        }),
{
    let pieces = split_chars(query, '&');
    let ghost pv = views_of(pieces@);
    let n: usize = pieces.len();
    let mut i: usize = 0;
    while i < n
        invariant
            i <= n,
            n == pv.len(),
            pv == views_of(pieces@),
            pv == split_chars_spec(query@),
            spec_query_name(pv, 0) == spec_query_name(pv, i as int),
        decreases n - i,
    {
        let p = &pieces[i];
        let e = find_char_at(p.as_slice(), '=');
        proof {
            lemma_find_char(p@, '=');
        }
        if e < p.len() {
            let key = vstd::slice::slice_subrange(p.as_slice(), 0, e);
            let key_lit: [char; 4] = ['n', 'a', 'm', 'e'];
            proof {
                assert(key@ =~= p@.take(e as int));
                assert(key_lit@ =~= name_key());
            }
            if crate::strutil::chars_eq(key, key_lit.as_slice()) {
                let raw = vstd::slice::slice_subrange(p.as_slice(), e + 1, p.len());
                proof {
                    assert(raw@ =~= p@.skip(e + 1));
                }
                let bytes = query_decode(raw);
                return crate::response::utf8_to_string(bytes);
            }
        }
        i = i + 1;
    }
    None
}

/// The views of the `&`-split pieces of a query.
pub open spec fn split_chars_spec(q: Seq<char>) -> Seq<Seq<char>> {
    split_char(q, '&')
}

/// Where a request line's method and target go. The target splits at the
/// first `?` into path and query; only the topping delete reads the query.
pub open spec fn spec_route(method: Seq<char>, target: Seq<char>) -> Route {
    let q = find_char(target, '?');
    let path = if 0 <= q <= target.len() {
        target.take(q)
    } else {
        target
    };
    let query = if 0 <= q < target.len() {
        target.skip(q + 1)
    } else {
        Seq::<char>::empty()
    };
    if method == ("GET")@ && path == ("/")@ {
        Route::Root
    } else if method == ("GET")@ && path == ("/toppings")@ {
        Route::GetToppings
    } else if method == ("POST")@ && path == ("/toppings")@ {
        Route::AddTopping
    } else if method == ("DELETE")@ && path == ("/toppings/clear")@ {
        Route::ClearToppings
    } else if method == ("POST")@ && path == ("/transaction")@ {
        Route::StoreTransaction
    } else if method == ("DELETE")@ && path == ("/toppings")@ {
        match spec_query_name(split_chars_spec(query), 0) {
            Some(_) => Route::DeleteTopping { name: arbitrary() },
            None => Route::BadRequest,
        }
    } else {
        Route::NotFound
    }
}

fn str_eq_lit(v: &[char], lit: &str) -> (r: bool)
    ensures
        r == (v@ == lit@),
{
    let l = str_chars(lit);
    crate::strutil::chars_eq(v, l.as_slice())
}

/// Routes one request by method and target. For the topping delete the
/// returned route carries the decoded `name` value.
pub fn route_request(method: &str, target: &str) -> (r: Route)
    ensures
        ({
            let m = spec_route(method@, target@);
            match r {
                Route::DeleteTopping { name } => m is DeleteTopping && name@ == spec_query_name(
                    split_chars_spec(spec_route_query(target@)),
                    0,
                )->Some_0,
                _ => r == m,
            }
        }),
{
    let mv = str_chars(method);
    let tv = str_chars(target);
    let q = find_char_at(tv.as_slice(), '?');
    proof {
        lemma_find_char(tv@, '?');
    }
    let path = vstd::slice::slice_subrange(tv.as_slice(), 0, q);
    proof {
        assert(path@ =~= tv@.take(q as int));
        if q == tv@.len() {
            assert(path@ =~= tv@);
        }
    }
    let is_get = str_eq_lit(mv.as_slice(), "GET");
    let is_post = str_eq_lit(mv.as_slice(), "POST");
    let is_delete = str_eq_lit(mv.as_slice(), "DELETE");
    if is_get && str_eq_lit(path, "/") {
        Route::Root
    } else if is_get && str_eq_lit(path, "/toppings") {
        Route::GetToppings
    } else if is_post && str_eq_lit(path, "/toppings") {
        Route::AddTopping
    } else if is_delete && str_eq_lit(path, "/toppings/clear") {
        Route::ClearToppings
    } else if is_post && str_eq_lit(path, "/transaction") {
        Route::StoreTransaction
    } else if is_delete && str_eq_lit(path, "/toppings") {
        let query = if q < tv.len() {
            vstd::slice::slice_subrange(tv.as_slice(), q + 1, tv.len())
        } else {
            vstd::slice::slice_subrange(tv.as_slice(), q, q)
        };
        proof {
            assert(query@ =~= spec_route_query(target@));
        }
        match query_name(query) {
            Some(name) => Route::DeleteTopping { name },
            None => Route::BadRequest,
        }
    } else {
        Route::NotFound
    }
}

/// The query part of a request target: what follows the first `?`.
pub open spec fn spec_route_query(target: Seq<char>) -> Seq<char> {
    let q = find_char(target, '?');
    if 0 <= q < target.len() {
        target.skip(q + 1)
    } else {
        Seq::<char>::empty()
    }
}

/// The record `POST /toppings` appends for a body, if the body is valid:
/// the first line must be `Name#Price` with a nonempty trimmed name and a
/// price that parses; the appended record re-emits both in canonical form.
pub open spec fn spec_add_topping_line(body: Seq<char>) -> Option<Seq<char>> {
    let lines = split_lines(body);
    let line = spec_trim(if lines.len() > 0 {
        lines[0]
    } else {
        Seq::<char>::empty()
    });
    let h = find_char(line, '#');
    if !(0 <= h < line.len()) {
        None
    } else {
        let name = spec_trim(line.take(h));
        let price_text = spec_trim(line.skip(h + 1));
        if name.len() == 0 {
            None
        } else if !is_uint_in_range(price_text, u32::MAX as nat) {
            None
        } else {
            Some(
                name + seq!['#'] + dec_chars(dec_value(spec_uint_digits(price_text))) + seq![
                    '\n',
                ],
            )
        }
    }
}

/// Validates one `POST /toppings` body and renders the record to append;
/// `None` is the bad-request answer.
pub fn add_topping_line(body: &str) -> (r: Option<String>)
    ensures
        r is Some <==> spec_add_topping_line(body@) is Some,
        r is Some ==> r->0@ == spec_add_topping_line(body@)->Some_0,
{
    let chars = str_chars(body);
    let lines = split_lines_chars(chars.as_slice());
    let ghost lv = views_of(lines@);
    let first: Vec<char> = if lines.len() > 0 {
        let mut it = lines;
        let mut f = Vec::new();
        let head = &it[0];
        let mut k: usize = 0;
        while k < head.len()
            invariant
                k <= head@.len(),
                head == &it@[0],
                it@.len() > 0,
                f@ == head@.subrange(0, k as int),
            decreases head@.len() - k,
        {
            f.push(head[k]);
            k = k + 1;
            proof {
                assert(f@ =~= head@.subrange(0, k as int));
            }
        }
        proof {
            assert(f@ =~= lv[0]);
        }
        f
    } else {
        Vec::new()
    };
    proof {
        if lv.len() == 0 {
            assert(first@ =~= Seq::<char>::empty());
        }
    }
    let line = trim_chars(first.as_slice());
    let h = find_char_at(line.as_slice(), '#');
    proof {
        lemma_find_char(line@, '#');
    }
    if h >= line.len() {
        return None;
    }
    let name_part = vstd::slice::slice_subrange(line.as_slice(), 0, h);
    let price_part = vstd::slice::slice_subrange(line.as_slice(), h + 1, line.len());
    proof {
        assert(name_part@ =~= line@.take(h as int));
        assert(price_part@ =~= line@.skip(h + 1));
    }
    let name = trim_chars(name_part);
    let price_text = trim_chars(price_part);
    if name.len() == 0 {
        return None;
    }
    match parse_u32_chars(price_text.as_slice()) {
        None => None,
        Some(price) => {
            let mut r = chars_to_string(name.as_slice());
            push_char(&mut r, '#');
            let digits = u64_to_string(price as u64);
            r.append(digits.as_str());
            push_char(&mut r, '\n');
            proof {
                assert(r@ =~= spec_add_topping_line(body@)->Some_0);
            }
            Some(r)
        },
    }
}

/// The store contents after a topping delete: every line whose name segment
/// equals the given name, ASCII case-insensitively, is dropped; every other
/// line is kept, renormalised to end in a newline.
pub open spec fn spec_store_after_delete(lines: Seq<Seq<char>>, name: Seq<char>, i: int) -> Seq<
    char,
>
    decreases lines.len() - i,
{
    if !(0 <= i < lines.len()) {
        Seq::<char>::empty()
    } else {
        let seg = lines[i].take(find_char(lines[i], '#'));
        if eq_ignore_case(seg, name) {
            spec_store_after_delete(lines, name, i + 1)
        } else {
            lines[i] + seq!['\n'] + spec_store_after_delete(lines, name, i + 1)
        }
    }
}

/// Rewrites the topping store without the named topping. Deleting a name
/// with no record is not an error: the store comes back unchanged.
pub fn delete_topping_lines(content: &str, name: &str) -> (r: String)
    ensures
        r@ == spec_store_after_delete(split_lines(content@), name@, 0),
{
    let chars = str_chars(content);
    let lines = split_lines_chars(chars.as_slice());
    let ghost lv = views_of(lines@);
    let name_chars = str_chars(name);
    let n: usize = lines.len();
    let mut r = String::new();
    let mut i: usize = 0;
    proof {
        assert(r@ + spec_store_after_delete(lv, name@, 0) =~= spec_store_after_delete(
            lv,
            name@,
            0,
        ));
    }
    while i < n
        invariant
            i <= n,
            n == lv.len(),
            lv == views_of(lines@),
            name_chars@ == name@,
            spec_store_after_delete(lv, name@, 0) == r@ + spec_store_after_delete(
                lv,
                name@,
                i as int,
            ),
        decreases n - i,
    {
        let line = &lines[i];
        let h = find_char_at(line.as_slice(), '#');
        proof {
            lemma_find_char(line@, '#');
        }
        let seg = vstd::slice::slice_subrange(line.as_slice(), 0, h);
        proof {
            assert(seg@ =~= lv[i as int].take(find_char(lv[i as int], '#')));
        }
        if !chars_eq_ignore_case(seg, name_chars.as_slice()) {
            let mut k: usize = 0;
            let ghost mid = r@;
            while k < line.len()
                invariant
                    k <= line@.len(),
                    line == &lines@[i as int],
                    i < lines@.len(),
                    r@ == mid + line@.subrange(0, k as int),
                decreases line@.len() - k,
            {
                push_char(&mut r, line[k]);
                k = k + 1;
                proof {
                    assert(r@ =~= mid + line@.subrange(0, k as int));
                }
            }
            push_char(&mut r, '\n');
            proof {
                assert(line@.subrange(0, line@.len() as int) =~= line@);
                assert(spec_store_after_delete(lv, name@, i as int) == lv[i as int] + seq!['\n']
                    + spec_store_after_delete(lv, name@, i + 1));
                assert(spec_store_after_delete(lv, name@, 0) =~= r@ + spec_store_after_delete(
                    lv,
                    name@,
                    i + 1,
                ));
            }
        }
        i = i + 1;
    }
    proof {
        assert(spec_store_after_delete(lv, name@, n as int) =~= Seq::<char>::empty());
        assert(r@ + Seq::<char>::empty() =~= r@);
    }
    r
}

/// A record with a trailing newline assured, as the transaction log keeps
/// every record on a line of its own even when the sender omitted it.
pub open spec fn spec_with_trailing_newline(record: Seq<char>) -> Seq<char> {
    if record.len() > 0 && record.last() == '\n' {
        record
    } else {
        record.push('\n')
    }
}

/// Normalises one transaction record for the append-only log.
pub fn normalize_transaction_record(record: String) -> (r: String)
    ensures
        r@ == spec_with_trailing_newline(record@),
{
    let n: usize = record.as_str().unicode_len();
    if n > 0 && record.as_str().get_char(n - 1) == '\n' {
        record
    } else {
        let mut r = record;
        push_char(&mut r, '\n');
        r
    }
}

} // verus!
