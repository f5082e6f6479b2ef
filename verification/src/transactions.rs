//! Transaction records: `timestamp;euros,cents;clean name`. The price is
//! carried in cents and written as major,minor; the name has its line
//! breaks flattened to spaces. The custom pizza's record name lists the
//! chosen toppings with their quantities.

use vstd::prelude::*;

use crate::strutil::{dec_chars, push_char, str_chars, u64_to_string};
use crate::types::{Topping, ToppingModel, catalog_view};

verus! {

/// `euros,cents` with the cents always two digits.
pub open spec fn spec_eur_cents(cents: u32) -> Seq<char> {
    dec_chars((cents / 100) as nat) + seq![','] + (if cents % 100 < 10 {
        seq!['0']
    } else {
        Seq::<char>::empty()
    }) + dec_chars((cents % 100) as nat)
}

/// Formats a cent amount as `euros,cents`.
pub fn format_eur_cents(cents: u32) -> (r: String)
    ensures
        r@ == spec_eur_cents(cents),
{
    let mut r = u64_to_string((cents / 100) as u64);
    push_char(&mut r, ',');
    if cents % 100 < 10 {
        push_char(&mut r, '0');
    }
    let minor = u64_to_string((cents % 100) as u64);
    r.append(minor.as_str());
    proof {
        assert(r@ =~= spec_eur_cents(cents));
    }
    r
}

/// A name with every line break flattened to a space.
pub open spec fn spec_clean_name(name: Seq<char>) -> Seq<char> {
    name.map_values(
        |c: char|
            if c == '\n' || c == '\r' {
                ' '
            } else {
                c
            },
    )
}

/// One transaction record: `timestamp;price;clean name`, without a line
/// break of its own. The timestamp is taken as given: the clock is the
/// caller's.
pub open spec fn spec_transaction_string(now: Seq<char>, price_cents: u32, name: Seq<char>) -> Seq<
    char,
> {
    now + seq![';'] + spec_eur_cents(price_cents) + seq![';'] + spec_clean_name(name)
}

/// Formats one transaction record from a timestamp, a cent amount and a
/// display name.
pub fn format_transaction_as_string(now: &str, price_cents: u32, name: &str) -> (r: String)
    ensures
        r@ == spec_transaction_string(now@, price_cents, name@),
{
    let mut r = String::new();
    r.append(now);
    push_char(&mut r, ';');
    let eur = format_eur_cents(price_cents);
    r.append(eur.as_str());
    push_char(&mut r, ';');
    let chars = str_chars(name);
    let k: usize = chars.len();
    let mut i: usize = 0;
    let ghost head = r@;
    proof {
        assert(head + spec_clean_name(name@.subrange(0, 0)) =~= head);
    }
    while i < k
        invariant
            i <= k,
            k == name@.len(),
            chars@ == name@,
            r@ == head + spec_clean_name(name@.subrange(0, i as int)),
        decreases k - i,
    {
        let c = chars[i];
        if c == '\n' || c == '\r' {
            push_char(&mut r, ' ');
        } else {
            push_char(&mut r, c);
        }
        i = i + 1;
        proof {
            assert(r@ =~= head + spec_clean_name(name@.subrange(0, i as int)));
        }
    }
    proof {
        assert(name@.subrange(0, k as int) =~= name@);
        assert(r@ =~= spec_transaction_string(now@, price_cents, name@));
    }
    r
}

/// The name parts the custom pizza's record lists, from topping `i` on:
/// each chosen topping's name, with ` xQ` appended when quantities are
/// included and the quantity is above one.
pub open spec fn custom_parts(
    av: Seq<ToppingModel>,
    qty: Seq<u32>,
    include_qty: bool,
    i: int,
) -> Seq<Seq<char>>
    decreases qty.len() - i,
{
    if !(0 <= i < qty.len()) {
        Seq::<Seq<char>>::empty()
    } else if qty[i] == 0 {
        custom_parts(av, qty, include_qty, i + 1)
    } else {
        let part = if include_qty && qty[i] > 1 {
            av[i].name + seq![' ', 'x'] + dec_chars(qty[i] as nat)
        } else {
            av[i].name
        };
        seq![part] + custom_parts(av, qty, include_qty, i + 1)
    }
}

/// The parts from `i` on joined after a first part, each behind `, `.
pub open spec fn join_rest(parts: Seq<Seq<char>>, i: int) -> Seq<char>
    decreases parts.len() - i,
{
    if !(0 <= i < parts.len()) {
        Seq::<char>::empty()
    } else {
        seq![',', ' '] + parts[i] + join_rest(parts, i + 1)
    }
}

/// `"Custom-Pizza"`.
pub open spec fn custom_pizza_name() -> Seq<char> {
    seq!['C', 'u', 's', 't', 'o', 'm', '-', 'P', 'i', 'z', 'z', 'a']
}

/// The custom pizza's display name: `Custom-Pizza` bare when nothing was
/// chosen, else `Custom-Pizza (part, part, ...)`.
pub open spec fn spec_custom_name(av: Seq<ToppingModel>, qty: Seq<u32>, include_qty: bool) -> Seq<
    char,
> {
    let parts = custom_parts(av, qty, include_qty, 0);
    if parts.len() == 0 {
        custom_pizza_name()
    } else {
        custom_pizza_name() + seq![' ', '('] + parts[0] + join_rest(parts, 1) + seq![')']
    }
}

/// Builds the custom pizza's display name from the catalog and the chosen
/// quantities.
pub fn build_custom_name(available: &[Topping], qty: &[u32], include_qty: bool) -> (r: String)
    requires
        qty@.len() <= available@.len(),
    ensures
        r@ == spec_custom_name(catalog_view(available@), qty@, include_qty),
{
    let ghost av = catalog_view(available@);
    let n: usize = qty.len();
    let mut parts: Vec<String> = Vec::new();
    let mut i: usize = 0;
    proof {
        assert(custom_parts(av, qty@, include_qty, 0) =~= parts@.map_values(|p: String| p@)
            + custom_parts(av, qty@, include_qty, 0));
    }
    while i < n
        invariant
            i <= n,
            n == qty@.len(),
            qty@.len() <= available@.len(),
            av == catalog_view(available@),
            custom_parts(av, qty@, include_qty, 0) == parts@.map_values(|p: String| p@)
                + custom_parts(av, qty@, include_qty, i as int),
        decreases n - i,
    {
        let q = qty[i];
        if q > 0 {
            let mut part = available[i].name.clone();
            if include_qty && q > 1 {
                push_char(&mut part, ' ');
                push_char(&mut part, 'x');
                let digits = u64_to_string(q as u64);
                part.append(digits.as_str());
            }
            proof {
                let spec_part = if include_qty && qty@[i as int] > 1 {
                    av[i as int].name + seq![' ', 'x'] + dec_chars(qty@[i as int] as nat)
                } else {
                    av[i as int].name
                };
                assert(part@ =~= spec_part);
                assert(parts@.push(part).map_values(|p: String| p@) =~= parts@.map_values(
                    |p: String| p@,
                ).push(part@));
                assert(parts@.map_values(|p: String| p@) + (seq![part@] + custom_parts(
                    av,
                    qty@,
                    include_qty,
                    i + 1,
                )) =~= parts@.push(part).map_values(|p: String| p@) + custom_parts(
                    av,
                    qty@,
                    include_qty,
                    i + 1,
                ));
            }
            parts.push(part);
        }
        i = i + 1;
    }
    proof {
        assert(custom_parts(av, qty@, include_qty, n as int) =~= Seq::<Seq<char>>::empty());
        assert(parts@.map_values(|p: String| p@) + Seq::<Seq<char>>::empty() =~= parts@.map_values(
            |p: String| p@,
        ));
    }
    let ghost pv = parts@.map_values(|p: String| p@);
    let mut r = String::new();
    r.append("Custom-Pizza");
    proof {
        reveal_strlit("Custom-Pizza");
        assert(r@ =~= custom_pizza_name());
    }
    if parts.len() == 0 {
        return r;
    }
    push_char(&mut r, ' ');
    push_char(&mut r, '(');
    r.append(parts[0].as_str());
    let m: usize = parts.len();
    let mut i: usize = 1;
    let ghost head = r@;
    proof {
        assert(head + Seq::<char>::empty() =~= head);
    }
    while i < m
        invariant
            1 <= i <= m,
            m == pv.len(),
            pv == parts@.map_values(|p: String| p@),
            head + join_rest(pv, 1) == r@ + join_rest(pv, i as int),
        decreases m - i,
    {
        push_char(&mut r, ',');
        push_char(&mut r, ' ');
        r.append(parts[i].as_str());
        proof {
            assert(join_rest(pv, i as int) == seq![',', ' '] + pv[i as int] + join_rest(
                pv,
                i + 1,
            ));
            assert(head + join_rest(pv, 1) =~= r@ + join_rest(pv, i + 1));
        }
        i = i + 1;
    }
    proof {
        assert(join_rest(pv, m as int) =~= Seq::<char>::empty());
        assert(r@ =~= head + join_rest(pv, 1));
    }
    push_char(&mut r, ')');
    proof {
        assert(r@ =~= spec_custom_name(av, qty@, include_qty));
    }
    r
}

/// The cent total of the chosen quantities: base price plus each
/// quantity times its topping's price, all times one hundred.
pub open spec fn sum_qty_prices(av: Seq<ToppingModel>, qty: Seq<u32>) -> nat
    decreases qty.len(),
{
    if qty.len() == 0 {
        0
    } else {
        (sum_qty_prices(av, qty.drop_last()) + qty.last() * av[qty.len() - 1].price) as nat
    }
}

/// What the custom pizza's checkout charges, in cents.
pub open spec fn spec_custom_total_cents(
    base_price_eur: u32,
    av: Seq<ToppingModel>,
    qty: Seq<u32>,
) -> nat {
    ((base_price_eur + sum_qty_prices(av, qty)) * 100) as nat
}

/// Any prefix of the quantity-price sum is at most the whole sum.
pub proof fn lemma_sum_qty_prefix_le(av: Seq<ToppingModel>, qty: Seq<u32>, i: int)
    requires
        0 <= i <= qty.len(),
    ensures
        sum_qty_prices(av, qty.subrange(0, i)) <= sum_qty_prices(av, qty),
    decreases qty.len() - i,
{
    if i < qty.len() {
        lemma_sum_qty_prefix_le(av, qty, i + 1);
        let q = qty.subrange(0, i + 1);
        assert(q.drop_last() =~= qty.subrange(0, i));
        assert(q.last() == qty[i]);
        assert(q.last() * av[i].price >= 0) by (nonlinear_arith);
        assert(forall|j: int| 0 <= j < i + 1 ==> q[j] == qty[j]);
    } else {
        assert(qty.subrange(0, i) =~= qty);
    }
}

/// The custom pizza's total in cents. The total must fit a `u32`; callers
/// that cannot know that beforehand use [`try_calc_custom_total_cents`].
pub fn calc_custom_total_cents(base_price_eur: u32, available: &[Topping], qty: &[u32]) -> (r: u32)
    requires
        qty@.len() <= available@.len(),
        spec_custom_total_cents(base_price_eur, catalog_view(available@), qty@) <= u32::MAX,
    ensures
        r as nat == spec_custom_total_cents(base_price_eur, catalog_view(available@), qty@),
{
    let ghost av = catalog_view(available@);
    let n: usize = qty.len();
    let mut sum: u32 = 0;
    let mut i: usize = 0;
    proof {
        assert(qty@.subrange(0, 0) =~= Seq::<u32>::empty());
        assert((base_price_eur + sum_qty_prices(av, qty@)) * 100 >= base_price_eur
            + sum_qty_prices(av, qty@)) by (nonlinear_arith);
    }
    while i < n
        invariant
            i <= n,
            n == qty@.len(),
            qty@.len() <= available@.len(),
            av == catalog_view(available@),
            sum as nat == sum_qty_prices(av, qty@.subrange(0, i as int)),
            spec_custom_total_cents(base_price_eur, av, qty@) <= u32::MAX,
            base_price_eur + sum_qty_prices(av, qty@) <= u32::MAX,
        decreases n - i,
    {
        let ghost q = qty@.subrange(0, i + 1);
        proof {
            lemma_sum_qty_prefix_le(av, qty@, i + 1);
            assert(q.drop_last() =~= qty@.subrange(0, i as int));
            assert(q.last() == qty@[i as int]);
            assert(sum_qty_prices(av, q) == sum as nat + qty@[i as int] * av[i as int].price);
            assert(av[i as int].price == available@[i as int]@.price);
        }
        let item_cents: u64 = (qty[i] as u64) * (available[i].price as u64);
        proof {
            assert(qty@[i as int] * av[i as int].price == item_cents as nat) by (nonlinear_arith)
                requires
                    item_cents == (qty@[i as int] as u64) * (available@[i as int]@.price as u64),
                    av[i as int].price == available@[i as int]@.price,
            ;
        }
        sum = sum + (item_cents as u32);
        i = i + 1;
    }
    proof {
        assert(qty@.subrange(0, n as int) =~= qty@);
    }
    (base_price_eur + sum) * 100
}

/// The custom pizza's total in cents, or nothing where it would not fit a
/// `u32`.
pub fn try_calc_custom_total_cents(base_price_eur: u32, available: &[Topping], qty: &[u32]) -> (r:
    Option<u32>)
    requires
        qty@.len() <= available@.len(),
    ensures
        r is Some <==> spec_custom_total_cents(base_price_eur, catalog_view(available@), qty@)
            <= u32::MAX,
        r is Some ==> r->0 as nat == spec_custom_total_cents(
            base_price_eur,
            catalog_view(available@),
            qty@,
        ),
{
    let ghost av = catalog_view(available@);
    let n: usize = qty.len();
    let mut sum: u64 = 0;
    let mut i: usize = 0;
    proof {
        assert(qty@.subrange(0, 0) =~= Seq::<u32>::empty());
    }
    while i < n
        invariant
            i <= n,
            n == qty@.len(),
            qty@.len() <= available@.len(),
            av == catalog_view(available@),
            sum as nat == sum_qty_prices(av, qty@.subrange(0, i as int)),
            sum <= 0xffff_ffff_ffffu64,
        decreases n - i,
    {
        let ghost q = qty@.subrange(0, i + 1);
        proof {
            assert(q.drop_last() =~= qty@.subrange(0, i as int));
            assert(q.last() == qty@[i as int]);
            assert(av[i as int].price == available@[i as int]@.price);
        }
        let qi: u64 = qty[i] as u64;
        let pi: u64 = available[i].price as u64;
        proof {
            assert(qi * pi <= 0xffff_fffe_0000_0001u64) by (nonlinear_arith)
                requires
                    qi <= 0xffff_ffffu64,
                    pi <= 0xffff_ffffu64,
            ;
        }
        let item_cents: u64 = qi * pi;
        proof {
            assert(item_cents as nat == qty@[i as int] * av[i as int].price) by (nonlinear_arith)
                requires
                    item_cents == qi * pi,
                    qi == qty@[i as int],
                    pi == av[i as int].price,
            ;
            assert(sum_qty_prices(av, q) == sum as nat + item_cents as nat);
        }
        if item_cents > 0xffff_ffff_ffffu64 || sum > 0xffff_ffff_ffffu64 - item_cents {
            proof {
                lemma_sum_qty_prefix_le(av, qty@, i + 1);
                assert(sum_qty_prices(av, qty@) > 0xffff_ffff_ffffu64 as nat);
                assert(spec_custom_total_cents(base_price_eur, av, qty@) > u32::MAX as nat)
                    by (nonlinear_arith)
                    requires
                        sum_qty_prices(av, qty@) > 0xffff_ffff_ffffu64 as nat,
                        spec_custom_total_cents(base_price_eur, av, qty@) == ((base_price_eur
                            + sum_qty_prices(av, qty@)) * 100) as nat,
                ;
            }
            return None;
        }
        sum = sum + item_cents;
        i = i + 1;
    }
    proof {
        assert(qty@.subrange(0, n as int) =~= qty@);
    }
    let total: u64 = (base_price_eur as u64 + sum) * 100;
    proof {
        assert(total as nat == spec_custom_total_cents(base_price_eur, av, qty@))
            by (nonlinear_arith)
            requires
                total == (base_price_eur as u64 + sum) * 100,
                sum as nat == sum_qty_prices(av, qty@),
                sum <= 0xffff_ffff_ffffu64,
                base_price_eur <= 0xffff_ffffu32,
                spec_custom_total_cents(base_price_eur, av, qty@) == ((base_price_eur
                    + sum_qty_prices(av, qty@)) * 100) as nat,
        ;
    }
    if total > 0xffff_ffffu64 {
        None
    } else {
        Some(total as u32)
    }
}

/// One custom-pizza transaction record: the built display name and the
/// computed cent total behind the caller's timestamp.
pub fn format_custom_pizza_as_transaction_string(
    now: &str,
    base_price_eur: u32,
    available: &[Topping],
    qty: &[u32],
    include_qty_in_name: bool,
) -> (r: String)
    requires
        qty@.len() <= available@.len(),
        spec_custom_total_cents(base_price_eur, catalog_view(available@), qty@) <= u32::MAX,
    ensures
        r@ == spec_transaction_string(
            now@,
            (spec_custom_total_cents(base_price_eur, catalog_view(available@), qty@)) as u32,
            spec_custom_name(catalog_view(available@), qty@, include_qty_in_name),
        ),
{
    let name = build_custom_name(available, qty, include_qty_in_name);
    let total_cents = calc_custom_total_cents(base_price_eur, available, qty);
    format_transaction_as_string(now, total_cents, name.as_str())
}

} // verus!
