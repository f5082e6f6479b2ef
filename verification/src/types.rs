//! The catalog value types — toppings and pizzas — and the line-oriented
//! catalog text formats: `Name#Price` for toppings and
//! `Name#Topping1|Topping2|...#BasePrice` for prebuilt pizzas.

use vstd::prelude::*;

use crate::strutil::{
    chars_eq, chars_to_string, dec_chars, dec_value, find_char, find_char_at, is_uint_in_range, lemma_find_char, parse_u32_chars,
    spec_trim, spec_uint_digits, split_char, split_chars, split_lines, split_lines_chars,
    str_chars, trim_chars, views_of,
};

verus! {

/// The mathematical value of a [`Topping`].
#[verifier::ext_equal]
pub ghost struct ToppingModel {
    pub name: Seq<char>,
    pub price: u32,
}

/// One topping of the catalog: a name and a whole-currency price.
#[derive(Debug, Clone)]
pub struct Topping {
    pub name: String,
    pub price: u32,
}

impl View for Topping {
    type V = ToppingModel;

    open spec fn view(&self) -> ToppingModel {
        ToppingModel { name: self.name@, price: self.price }
    }
}

impl PartialEq for Topping {
    fn eq(&self, other: &Topping) -> (r: bool)
        ensures
            r == (self@ == other@),
    {
        proof {
            if self.name@ == other.name@ && self.price == other.price {
                assert(self@ =~= other@);
            }
        }
        self.name == other.name && self.price == other.price
    }
}

impl vstd::std_specs::cmp::PartialEqSpecImpl for Topping {
    open spec fn obeys_eq_spec() -> bool {
        true
    }

    open spec fn eq_spec(&self, other: &Topping) -> bool {
        self@ == other@
    }
}

impl Topping {
    /// The first character of the topping's name, its menu shorthand.
    pub fn shortname(&self) -> (r: char)
        requires
            self@.name.len() > 0,
        ensures
            r == self@.name[0],
    {
        self.name.as_str().get_char(0)
    }
}

/// The mathematical value of a [`Pizza`].
#[verifier::ext_equal]
pub ghost struct PizzaModel {
    pub name: Seq<char>,
    pub toppings: Seq<ToppingModel>,
    pub base_price: u32,
}

/// A pizza: a name, an ordered topping sequence, and a base price. Its
/// total price is always derived, never stored.
#[derive(Debug, Clone)]
pub struct Pizza {
    pub name: String,
    pub toppings: Vec<Topping>,
    pub base_price: u32,
}

impl View for Pizza {
    type V = PizzaModel;

    open spec fn view(&self) -> PizzaModel {
        PizzaModel {
            name: self.name@,
            toppings: self.toppings@.map_values(|t: Topping| t@),
            base_price: self.base_price,
        }
    }
}

impl PartialEq for Pizza {
    fn eq(&self, other: &Pizza) -> (r: bool)
        ensures
            r == (self@ == other@),
    {
        if !(self.name == other.name && self.base_price == other.base_price) {
            return false;
        }
        if self.toppings.len() != other.toppings.len() {
            proof {
                assert(self@.toppings.len() == self.toppings@.len());
                assert(other@.toppings.len() == other.toppings@.len());
            }
            return false;
        }
        let n: usize = self.toppings.len();
        let mut i: usize = 0;
        while i < n
            invariant
                i <= n,
                n == self.toppings@.len() == other.toppings@.len(),
                forall|j: int| 0 <= j < i ==> self.toppings@[j]@ == other.toppings@[j]@,
            decreases n - i,
        {
            if !(self.toppings[i].name == other.toppings[i].name && self.toppings[i].price
                == other.toppings[i].price) {
                proof {
                    assert(self@.toppings[i as int] == self.toppings@[i as int]@);
                    assert(self@ != other@);
                }
                return false;
            }
            proof {
                assert(self.toppings@[i as int]@ =~= other.toppings@[i as int]@);
            }
            i = i + 1;
        }
        proof {
            assert(self@.toppings =~= other@.toppings);
            assert(self@ =~= other@);
        }
        true
    }
}

impl vstd::std_specs::cmp::PartialEqSpecImpl for Pizza {
    open spec fn obeys_eq_spec() -> bool {
        true
    }

    open spec fn eq_spec(&self, other: &Pizza) -> bool {
        self@ == other@
    }
}

/// The sum of the prices of a topping sequence.
pub open spec fn sum_prices(ts: Seq<ToppingModel>) -> nat
    decreases ts.len(),
{
    if ts.len() == 0 {
        0
    } else {
        (sum_prices(ts.drop_last()) + ts.last().price) as nat
    }
}

/// The derived total price of a pizza: base price plus topping prices.
pub open spec fn spec_total_price(p: PizzaModel) -> nat {
    (p.base_price + sum_prices(p.toppings)) as nat
}

impl Pizza {
    /// Base price plus the sum of all topping prices.
    pub fn total_price(&self) -> (r: u32)
        requires
            spec_total_price(self@) <= u32::MAX,
        ensures
            r as nat == spec_total_price(self@),
    {
        let ghost ts = self@.toppings;
        let n: usize = self.toppings.len();
        let mut sum: u32 = 0;
        let mut i: usize = 0;
        proof {
            lemma_sum_prices_prefix_le(ts, 0);
        }
        while i < n
            invariant
                i <= n,
                n == ts.len(),
                ts == self@.toppings,
                sum as nat == sum_prices(ts.subrange(0, i as int)),
                spec_total_price(self@) <= u32::MAX,
                self.base_price == self@.base_price,
            decreases n - i,
        {
            proof {
                lemma_sum_prices_prefix_le(ts, i + 1);
                assert(ts.subrange(0, i + 1).drop_last() =~= ts.subrange(0, i as int));
                assert(ts.subrange(0, i + 1).last() == ts[i as int]);
                assert(ts[i as int] == self.toppings@[i as int]@);
            }
            sum = sum + self.toppings[i].price;
            i = i + 1;
        }
        proof {
            assert(ts.subrange(0, n as int) =~= ts);
        }
        self.base_price + sum
    }
}

/// The mathematical value of a [`CatalogError`].
#[verifier::ext_equal]
pub ghost enum CatalogErrorModel {
    MissingPrice { line: nat },
    InvalidPrice { line: nat, value: Seq<char> },
    MissingBasePrice { line: nat },
    InvalidBasePrice { line: nat, value: Seq<char> },
    UnknownTopping { line: nat, name: Seq<char> },
}

/// Why a catalog text failed to load, with its 1-based line number. Any
/// such error aborts the whole load; no partial catalog is returned.
#[derive(Debug)]
pub enum CatalogError {
    MissingPrice { line: usize },
    InvalidPrice { line: usize, value: String },
    MissingBasePrice { line: usize },
    InvalidBasePrice { line: usize, value: String },
    UnknownTopping { line: usize, name: String },
}

impl View for CatalogError {
    type V = CatalogErrorModel;

    open spec fn view(&self) -> CatalogErrorModel {
        match self {
            CatalogError::MissingPrice { line } => CatalogErrorModel::MissingPrice {
                line: *line as nat,
            },
            CatalogError::InvalidPrice { line, value } => CatalogErrorModel::InvalidPrice {
                line: *line as nat,
                value: value@,
            },
            CatalogError::MissingBasePrice { line } => CatalogErrorModel::MissingBasePrice {
                line: *line as nat,
            },
            CatalogError::InvalidBasePrice { line, value } => CatalogErrorModel::InvalidBasePrice {
                line: *line as nat,
                value: value@,
            },
            CatalogError::UnknownTopping { line, name } => CatalogErrorModel::UnknownTopping {
                line: *line as nat,
                name: name@,
            },
        }
    }
}

impl CatalogError {
    /// The diagnostic line shown for the error, naming its line number.
    pub fn message(&self) -> (r: String)
        ensures
            r@ == (match self@ {
                CatalogErrorModel::MissingPrice { line } => ("Zeile ")@ + dec_chars(line) + (
                ": Topping-Preis fehlt")@,
                CatalogErrorModel::InvalidPrice { line, value } => ("Zeile ")@ + dec_chars(line) + (
                ": Ungültiger Preis '")@ + value + ("'")@,
                CatalogErrorModel::MissingBasePrice { line } => ("Zeile ")@ + dec_chars(line) + (
                ": Basispreis fehlt")@,
                CatalogErrorModel::InvalidBasePrice { line, value } => ("Zeile ")@ + dec_chars(
                    line,
                ) + (": Ungültiger Basispreis '")@ + value + ("'")@,
                CatalogErrorModel::UnknownTopping { line, name } => ("Zeile ")@ + dec_chars(line) + (
                ": Unbekanntes Topping '")@ + name + ("'")@,
            }),
    {
        let mut r = String::from_str("Zeile ");
        match self {
            CatalogError::MissingPrice { line } => {
                let digits = crate::strutil::u64_to_string(*line as u64);
                r.append(digits.as_str());
                r.append(": Topping-Preis fehlt");
            },
            CatalogError::InvalidPrice { line, value } => {
                let digits = crate::strutil::u64_to_string(*line as u64);
                r.append(digits.as_str());
                r.append(": Ungültiger Preis '");
                r.append(value.as_str());
                r.append("'");
            },
            CatalogError::MissingBasePrice { line } => {
                let digits = crate::strutil::u64_to_string(*line as u64);
                r.append(digits.as_str());
                r.append(": Basispreis fehlt");
            },
            CatalogError::InvalidBasePrice { line, value } => {
                let digits = crate::strutil::u64_to_string(*line as u64);
                r.append(digits.as_str());
                r.append(": Ungültiger Basispreis '");
                r.append(value.as_str());
                r.append("'");
            },
            CatalogError::UnknownTopping { line, name } => {
                let digits = crate::strutil::u64_to_string(*line as u64);
                r.append(digits.as_str());
                r.append(": Unbekanntes Topping '");
                r.append(name.as_str());
                r.append("'");
            },
        }
        r
    }
}

/// The views of a topping vector.
pub open spec fn catalog_view(v: Seq<Topping>) -> Seq<ToppingModel> {
    v.map_values(|t: Topping| t@)
}

/// The views of a pizza vector.
pub open spec fn pizzas_view(v: Seq<Pizza>) -> Seq<PizzaModel> {
    v.map_values(|p: Pizza| p@)
}

/// One trimmed topping line: `Name#Price`. An empty line yields nothing;
/// a missing or malformed price is an error naming the line.
pub open spec fn parse_topping_line(raw: Seq<char>, lineno: nat) -> Result<
    Option<ToppingModel>,
    CatalogErrorModel,
> {
    let line = spec_trim(raw);
    if line.len() == 0 {
        Ok(None)
    } else {
        let h = find_char(line, '#');
        if h == line.len() {
            Err(CatalogErrorModel::MissingPrice { line: lineno })
        } else {
            let name = line.take(h);
            let rest = line.skip(h + 1);
            let price_text = rest.take(find_char(rest, '#'));
            if is_uint_in_range(price_text, u32::MAX as nat) {
                Ok(
                    Some(
                        ToppingModel {
                            name,
                            price: dec_value(spec_uint_digits(price_text)) as u32,
                        },
                    ),
                )
            } else {
                Err(CatalogErrorModel::InvalidPrice { line: lineno, value: price_text })
            }
        }
    }
}

/// Topping catalog parsing from a line sequence, first error wins.
pub open spec fn spec_parse_toppings_from(lines: Seq<Seq<char>>, lineno: nat) -> Result<
    Seq<ToppingModel>,
    CatalogErrorModel,
>
    decreases lines.len(),
{
    if lines.len() == 0 {
        Ok(Seq::empty())
    } else {
        match parse_topping_line(lines[0], lineno) {
            Err(e) => Err(e),
            Ok(head) => match spec_parse_toppings_from(lines.drop_first(), lineno + 1) {
                Err(e) => Err(e),
                Ok(rest) => match head {
                    None => Ok(rest),
                    Some(t) => Ok(seq![t] + rest),
                },
            },
        }
    }
}

/// What [`parse_toppings`] returns for a catalog text.
pub open spec fn spec_parse_toppings(content: Seq<char>) -> Result<
    Seq<ToppingModel>,
    CatalogErrorModel,
> {
    spec_parse_toppings_from(split_lines(content), 1)
}

/// Parses a topping catalog text, one `Name#Price` record per line; blank
/// lines are skipped, and the first malformed line aborts the whole load.
pub fn parse_toppings(content: &str) -> (r: Result<Vec<Topping>, CatalogError>)
    ensures
        r is Ok <==> spec_parse_toppings(content@) is Ok,
        r is Ok ==> catalog_view(r->Ok_0@) == spec_parse_toppings(content@)->Ok_0,
        r is Err ==> r->Err_0@ == spec_parse_toppings(content@)->Err_0,
{
    let chars = str_chars(content);
    let lines = split_lines_chars(chars.as_slice());
    let ghost lv = views_of(lines@);
    let n: usize = lines.len();
    let mut acc: Vec<Topping> = Vec::new();
    let mut i: usize = 0;
    proof {
        assert(lv.skip(0) =~= lv);
        assert(catalog_view(acc@) =~= Seq::<ToppingModel>::empty());
    }
    while i < n
        invariant
            i <= n,
            n == lv.len(),
            lv == views_of(lines@),
            spec_parse_toppings(content@) == (match spec_parse_toppings_from(
                lv.skip(i as int),
                (i + 1) as nat,
            ) {
                Ok(rest) => Ok::<Seq<ToppingModel>, CatalogErrorModel>(catalog_view(acc@) + rest),
                Err(e) => Err(e),
            }),
        decreases n - i,
    {
        let ghost tail = lv.skip(i as int);
        proof {
            assert(tail[0] == lines@[i as int]@);
            assert(tail.drop_first() =~= lv.skip(i + 1));
        }
        let line = trim_chars(lines[i].as_slice());
        if line.len() > 0 {
            let h = find_char_at(line.as_slice(), '#');
            proof {
                lemma_find_char(line@, '#');
            }
            if h == line.len() {
                return Err(CatalogError::MissingPrice { line: i + 1 });
            }
            let rest = vstd::slice::slice_subrange(line.as_slice(), h + 1, line.len());
            let p2 = find_char_at(rest, '#');
            proof {
                lemma_find_char(rest@, '#');
            }
            let price_text = vstd::slice::slice_subrange(rest, 0, p2);
            proof {
                assert(rest@ =~= spec_trim(tail[0]).skip(h + 1));
                assert(price_text@ =~= rest@.take(find_char(rest@, '#')));
            }
            match parse_u32_chars(price_text) {
                Some(price) => {
                    let name_slice = vstd::slice::slice_subrange(line.as_slice(), 0, h);
                    let name = chars_to_string(name_slice);
                    let t = Topping { name, price };
                    proof {
                        assert(t@ == parse_topping_line(tail[0], (i + 1) as nat)->Ok_0->Some_0) by {
                            assert(name_slice@ =~= spec_trim(tail[0]).take(h as int));
                        }
                        assert(catalog_view(acc@.push(t)) =~= catalog_view(acc@).push(t@));
                        if spec_parse_toppings_from(lv.skip(i + 1), (i + 2) as nat) is Ok {
                            let rest_m = spec_parse_toppings_from(lv.skip(i + 1), (i + 2) as nat)->Ok_0;
                            assert(seq![t@] + rest_m =~= catalog_view(acc@.push(t)).skip(
                                acc@.len() as int,
                            ) + rest_m);
                            assert(catalog_view(acc@) + (seq![t@] + rest_m) =~= catalog_view(
                                acc@.push(t),
                            ) + rest_m);
                        }
                    }
                    acc.push(t);
                },
                None => {
                    return Err(
                        CatalogError::InvalidPrice { line: i + 1, value: chars_to_string(price_text) },
                    );
                },
            }
        } else {
            proof {
                assert(parse_topping_line(tail[0], (i + 1) as nat) == Ok::<
                    Option<ToppingModel>,
                    CatalogErrorModel,
                >(None::<ToppingModel>));
            }
        }
        i = i + 1;
    }
    proof {
        assert(lv.skip(n as int) =~= Seq::<Seq<char>>::empty());
        assert(catalog_view(acc@) + Seq::<ToppingModel>::empty() =~= catalog_view(acc@));
    }
    Ok(acc)
}

/// Whether every pizza's derived total fits the price type.
pub open spec fn all_totals_fit(ps: Seq<PizzaModel>) -> bool {
    forall|i: int| 0 <= i < ps.len() ==> spec_total_price(#[trigger] ps[i]) <= u32::MAX
}

/// Checks that every pizza's derived total fits the price type, so that
/// menu building and ordering can display it.
pub fn pizzas_totals_fit(ps: &[Pizza]) -> (r: bool)
    ensures
        r == all_totals_fit(pizzas_view(ps@)),
{
    let ghost pv = pizzas_view(ps@);
    let n: usize = ps.len();
    let mut i: usize = 0;
    while i < n
        invariant
            i <= n,
            n == pv.len(),
            pv == pizzas_view(ps@),
            forall|j: int| 0 <= j < i ==> spec_total_price(#[trigger] pv[j]) <= u32::MAX,
        decreases n - i,
    {
        let p = &ps[i];
        let ghost ts = pv[i as int].toppings;
        let m: usize = p.toppings.len();
        let mut sum: u64 = p.base_price as u64;
        let mut k: usize = 0;
        proof {
            assert(ts.subrange(0, 0) =~= Seq::<ToppingModel>::empty());
        }
        while k < m
            invariant
                k <= m,
                m == ts.len(),
                ts == pv[i as int].toppings,
                i < pv.len(),
                pv == pizzas_view(ps@),
                p == &ps@[i as int],
                sum as nat == pv[i as int].base_price + sum_prices(ts.subrange(0, k as int)),
                sum <= 0x1_ffff_fffeu64,
            decreases m - k,
        {
            proof {
                assert(ts.subrange(0, k + 1).drop_last() =~= ts.subrange(0, k as int));
                assert(ts.subrange(0, k + 1).last() == ts[k as int]);
                assert(ts[k as int] == ps@[i as int].toppings@[k as int]@);
            }
            if sum > u32::MAX as u64 {
                proof {
                    lemma_sum_prices_prefix_le(ts, k as int);
                    assert(spec_total_price(pv[i as int]) > u32::MAX);
                }
                return false;
            }
            sum = sum + p.toppings[k].price as u64;
            k = k + 1;
        }
        proof {
            assert(ts.subrange(0, m as int) =~= ts);
        }
        if sum > u32::MAX as u64 {
            return false;
        }
        i = i + 1;
    }
    true
}

/// Any prefix sum of topping prices is at most the whole sum.
pub proof fn lemma_sum_prices_prefix_le(ts: Seq<ToppingModel>, i: int)
    requires
        0 <= i <= ts.len(),
    ensures
        sum_prices(ts.subrange(0, i)) <= sum_prices(ts),
    decreases ts.len() - i,
{
    if i < ts.len() {
        lemma_sum_prices_prefix_le(ts, i + 1);
        assert(ts.subrange(0, i + 1).drop_last() =~= ts.subrange(0, i));
    } else {
        assert(ts.subrange(0, i) =~= ts);
    }
}

/// The catalog topping under a given name, exact match; where two records
/// share a name, the later one shadows the earlier, as a store that is read
/// top to bottom leaves the last record standing.
pub open spec fn lookup_topping(cat: Seq<ToppingModel>, name: Seq<char>) -> Option<ToppingModel>
    decreases cat.len(),
{
    if cat.len() == 0 {
        None
    } else if cat.last().name == name {
        Some(cat.last())
    } else {
        lookup_topping(cat.drop_last(), name)
    }
}

proof fn lemma_lookup_topping_take(cat: Seq<ToppingModel>, name: Seq<char>, k: int)
    requires
        0 <= k <= cat.len(),
        forall|j: int| k <= j < cat.len() ==> cat[j].name != name,
    ensures
        lookup_topping(cat, name) == lookup_topping(cat.take(k), name),
    decreases cat.len() - k,
{
    if k < cat.len() {
        assert(cat.last().name != name);
        lemma_lookup_topping_take(cat.drop_last(), name, k);
        assert(cat.drop_last().take(k) =~= cat.take(k));
    } else {
        assert(cat.take(k) =~= cat);
    }
}

/// Finds the index of the topping a name resolves to, if any.
fn find_topping(available: &[Topping], name: &[char]) -> (r: Option<usize>)
    ensures
        r is Some <==> lookup_topping(catalog_view(available@), name@) is Some,
        r is Some ==> r->0 < available@.len() && available@[r->0 as int]@ == lookup_topping(
            catalog_view(available@),
            name@,
        )->Some_0,
{
    let ghost cat = catalog_view(available@);
    let mut k: usize = available.len();
    while k > 0
        invariant
            k <= available@.len(),
            cat == catalog_view(available@),
            forall|j: int| k <= j < cat.len() ==> cat[j].name != name@,
        decreases k,
    {
        let cand = str_chars(available[k - 1].name.as_str());
        if chars_eq(cand.as_slice(), name) {
            proof {
                lemma_lookup_topping_take(cat, name@, k as int);
                let pre = cat.take(k as int);
                assert(pre.last() == cat[k - 1]);
                assert(lookup_topping(pre, name@) == Some(cat[k - 1]));
            }
            return Some(k - 1);
        }
        k = k - 1;
    }
    proof {
        lemma_lookup_topping_take(cat, name@, 0);
        assert(cat.take(0) =~= Seq::<ToppingModel>::empty());
    }
    None
}

/// The toppings a pizza line's `|`-separated name list resolves to against
/// the catalog; pieces that trim to nothing are skipped; the first unknown
/// name fails the whole line.
pub open spec fn resolve_toppings(
    pieces: Seq<Seq<char>>,
    cat: Seq<ToppingModel>,
    lineno: nat,
) -> Result<Seq<ToppingModel>, CatalogErrorModel>
    decreases pieces.len(),
{
    if pieces.len() == 0 {
        Ok(Seq::empty())
    } else {
        let p = spec_trim(pieces[0]);
        if p.len() == 0 {
            resolve_toppings(pieces.drop_first(), cat, lineno)
        } else {
            match lookup_topping(cat, p) {
                None => Err(CatalogErrorModel::UnknownTopping { line: lineno, name: p }),
                Some(t) => match resolve_toppings(pieces.drop_first(), cat, lineno) {
                    Err(e) => Err(e),
                    Ok(rest) => Ok(seq![t] + rest),
                },
            }
        }
    }
}

fn resolve_toppings_exec(
    pieces: &Vec<Vec<char>>,
    available: &[Topping],
    lineno: usize,
) -> (r: Result<Vec<Topping>, CatalogError>)
    ensures
        ({
            let m = resolve_toppings(views_of(pieces@), catalog_view(available@), lineno as nat);
            &&& r is Ok <==> m is Ok
            &&& r is Ok ==> catalog_view(r->Ok_0@) == m->Ok_0
            &&& r is Err ==> r->Err_0@ == m->Err_0
        }),
{
    let ghost pv = views_of(pieces@);
    let ghost cat = catalog_view(available@);
    let n: usize = pieces.len();
    let mut acc: Vec<Topping> = Vec::new();
    let mut i: usize = 0;
    proof {
        assert(pv.skip(0) =~= pv);
        assert(catalog_view(acc@) =~= Seq::<ToppingModel>::empty());
    }
    while i < n
        invariant
            i <= n,
            n == pv.len(),
            pv == views_of(pieces@),
            cat == catalog_view(available@),
            resolve_toppings(pv, cat, lineno as nat) == (match resolve_toppings(
                pv.skip(i as int),
                cat,
                lineno as nat,
            ) {
                Ok(rest) => Ok::<Seq<ToppingModel>, CatalogErrorModel>(catalog_view(acc@) + rest),
                Err(e) => Err(e),
            }),
        decreases n - i,
    {
        let ghost tail = pv.skip(i as int);
        proof {
            assert(tail[0] == pieces@[i as int]@);
            assert(tail.drop_first() =~= pv.skip(i + 1));
        }
        let p = trim_chars(pieces[i].as_slice());
        if p.len() > 0 {
            match find_topping(available, p.as_slice()) {
                None => {
                    return Err(
                        CatalogError::UnknownTopping { line: lineno, name: chars_to_string(p.as_slice()) },
                    );
                },
                Some(idx) => {
                    let t = Topping {
                        name: available[idx].name.clone(),
                        price: available[idx].price,
                    };
                    proof {
                        assert(t@ =~= available@[idx as int]@);
                        assert(catalog_view(acc@.push(t)) =~= catalog_view(acc@).push(t@));
                        if resolve_toppings(pv.skip(i + 1), cat, lineno as nat) is Ok {
                            let rest_m = resolve_toppings(pv.skip(i + 1), cat, lineno as nat)->Ok_0;
                            assert(catalog_view(acc@) + (seq![t@] + rest_m) =~= catalog_view(
                                acc@.push(t),
                            ) + rest_m);
                        }
                    }
                    acc.push(t);
                },
            }
        }
        i = i + 1;
    }
    proof {
        assert(pv.skip(n as int) =~= Seq::<Seq<char>>::empty());
        assert(catalog_view(acc@) + Seq::<ToppingModel>::empty() =~= catalog_view(acc@));
    }
    Ok(acc)
}

/// One trimmed prebuilt-pizza line: `Name#Topping1|Topping2|...#BasePrice`,
/// where `-` or an empty middle segment means no toppings. The base price is
/// everything after the second `#`. An empty line yields nothing.
pub open spec fn parse_pizza_line(
    raw: Seq<char>,
    cat: Seq<ToppingModel>,
    lineno: nat,
) -> Result<Option<PizzaModel>, CatalogErrorModel> {
    let line = spec_trim(raw);
    if line.len() == 0 {
        Ok(None)
    } else {
        let h1 = find_char(line, '#');
        if h1 == line.len() {
            Err(CatalogErrorModel::MissingBasePrice { line: lineno })
        } else {
            let name = line.take(h1);
            let after1 = line.skip(h1 + 1);
            let h2 = find_char(after1, '#');
            if h2 == after1.len() {
                Err(CatalogErrorModel::MissingBasePrice { line: lineno })
            } else {
                let names_seg = after1.take(h2);
                let base_text = after1.skip(h2 + 1);
                if !is_uint_in_range(base_text, u32::MAX as nat) {
                    Err(CatalogErrorModel::InvalidBasePrice { line: lineno, value: base_text })
                } else {
                    let base = dec_value(spec_uint_digits(base_text)) as u32;
                    let resolved = if spec_trim(names_seg).len() == 0 || names_seg =~= seq!['-'] {
                        Ok(Seq::<ToppingModel>::empty())
                    } else {
                        resolve_toppings(split_char(names_seg, '|'), cat, lineno)
                    };
                    match resolved {
                        Err(e) => Err(e),
                        Ok(ts) => Ok(
                            Some(PizzaModel { name, toppings: ts, base_price: base }),
                        ),
                    }
                }
            }
        }
    }
}

fn parse_pizza_line_exec(raw: &[char], available: &[Topping], lineno: usize) -> (r: Result<
    Option<Pizza>,
    CatalogError,
>)
    ensures
        ({
            let m = parse_pizza_line(raw@, catalog_view(available@), lineno as nat);
            &&& r is Ok <==> m is Ok
            &&& r is Ok ==> (r->Ok_0 is Some <==> m->Ok_0 is Some)
            &&& r is Ok && r->Ok_0 is Some ==> r->Ok_0->Some_0@ == m->Ok_0->Some_0
            &&& r is Err ==> r->Err_0@ == m->Err_0
        }),
{
    let ghost cat = catalog_view(available@);
    let line = trim_chars(raw);
    if line.len() == 0 {
        return Ok(None);
    }
    let h1 = find_char_at(line.as_slice(), '#');
    proof {
        lemma_find_char(line@, '#');
    }
    if h1 == line.len() {
        return Err(CatalogError::MissingBasePrice { line: lineno });
    }
    let after1 = vstd::slice::slice_subrange(line.as_slice(), h1 + 1, line.len());
    let h2 = find_char_at(after1, '#');
    proof {
        lemma_find_char(after1@, '#');
        assert(after1@ =~= spec_trim(raw@).skip(h1 + 1));
    }
    if h2 == after1.len() {
        return Err(CatalogError::MissingBasePrice { line: lineno });
    }
    let names_seg = vstd::slice::slice_subrange(after1, 0, h2);
    let base_text = vstd::slice::slice_subrange(after1, h2 + 1, after1.len());
    proof {
        assert(names_seg@ =~= after1@.take(h2 as int));
        assert(base_text@ =~= after1@.skip(h2 + 1));
    }
    let base_price = match parse_u32_chars(base_text) {
        Some(b) => b,
        None => {
            return Err(
                CatalogError::InvalidBasePrice { line: lineno, value: chars_to_string(base_text) },
            );
        },
    };
    let names_trimmed = trim_chars(names_seg);
    let no_toppings = names_trimmed.len() == 0 || (names_seg.len() == 1 && names_seg[0] == '-');
    proof {
        assert((names_seg.len() == 1 && names_seg@[0] == '-') <==> names_seg@ =~= seq!['-']);
    }
    let toppings: Vec<Topping> = if no_toppings {
        Vec::new()
    } else {
        let pieces = split_chars(names_seg, '|');
        match resolve_toppings_exec(&pieces, available, lineno) {
            Ok(ts) => ts,
            Err(e) => {
                return Err(e);
            },
        }
    };
    let name = chars_to_string(vstd::slice::slice_subrange(line.as_slice(), 0, h1));
    let p = Pizza { name, toppings, base_price };
    proof {
        let m = parse_pizza_line(raw@, cat, lineno as nat);
        assert(line@.take(h1 as int) =~= spec_trim(raw@).take(h1 as int));
        if no_toppings {
            assert(catalog_view(Seq::<Topping>::empty()) =~= Seq::<ToppingModel>::empty());
        }
        assert(p@ =~= m->Ok_0->Some_0);
    }
    Ok(Some(p))
}

/// Prebuilt-pizza catalog parsing from a line sequence, first error wins.
pub open spec fn spec_parse_pizzas_from(
    lines: Seq<Seq<char>>,
    cat: Seq<ToppingModel>,
    lineno: nat,
) -> Result<Seq<PizzaModel>, CatalogErrorModel>
    decreases lines.len(),
{
    if lines.len() == 0 {
        Ok(Seq::empty())
    } else {
        match parse_pizza_line(lines[0], cat, lineno) {
            Err(e) => Err(e),
            Ok(head) => match spec_parse_pizzas_from(lines.drop_first(), cat, lineno + 1) {
                Err(e) => Err(e),
                Ok(rest) => match head {
                    None => Ok(rest),
                    Some(p) => Ok(seq![p] + rest),
                },
            },
        }
    }
}

/// What [`parse_prebuild_pizza`] returns for a catalog text.
pub open spec fn spec_parse_prebuild_pizza(content: Seq<char>, cat: Seq<ToppingModel>) -> Result<
    Seq<PizzaModel>,
    CatalogErrorModel,
> {
    spec_parse_pizzas_from(split_lines(content), cat, 1)
}

/// Parses a prebuilt-pizza catalog text against a topping catalog, one
/// `Name#Toppings#BasePrice` record per line; an unknown topping name or a
/// malformed line aborts the whole load.
pub fn parse_prebuild_pizza(content: &str, available: &[Topping]) -> (r: Result<
    Vec<Pizza>,
    CatalogError,
>)
    ensures
        ({
            let m = spec_parse_prebuild_pizza(content@, catalog_view(available@));
            &&& r is Ok <==> m is Ok
            &&& r is Ok ==> pizzas_view(r->Ok_0@) == m->Ok_0
            &&& r is Err ==> r->Err_0@ == m->Err_0
        }),
{
    let ghost cat = catalog_view(available@);
    let chars = str_chars(content);
    let lines = split_lines_chars(chars.as_slice());
    let ghost lv = views_of(lines@);
    let n: usize = lines.len();
    let mut acc: Vec<Pizza> = Vec::new();
    let mut i: usize = 0;
    proof {
        assert(lv.skip(0) =~= lv);
        assert(pizzas_view(acc@) =~= Seq::<PizzaModel>::empty());
    }
    while i < n
        invariant
            i <= n,
            n == lv.len(),
            lv == views_of(lines@),
            cat == catalog_view(available@),
            spec_parse_prebuild_pizza(content@, cat) == (match spec_parse_pizzas_from(
                lv.skip(i as int),
                cat,
                (i + 1) as nat,
            ) {
                Ok(rest) => Ok::<Seq<PizzaModel>, CatalogErrorModel>(pizzas_view(acc@) + rest),
                Err(e) => Err(e),
            }),
        decreases n - i,
    {
        let ghost tail = lv.skip(i as int);
        proof {
            assert(tail[0] == lines@[i as int]@);
            assert(tail.drop_first() =~= lv.skip(i + 1));
        }
        match parse_pizza_line_exec(lines[i].as_slice(), available, i + 1) {
            Err(e) => {
                return Err(e);
            },
            Ok(None) => {},
            Ok(Some(p)) => {
                proof {
                    assert(pizzas_view(acc@.push(p)) =~= pizzas_view(acc@).push(p@));
                    if spec_parse_pizzas_from(lv.skip(i + 1), cat, (i + 2) as nat) is Ok {
                        let rest_m = spec_parse_pizzas_from(lv.skip(i + 1), cat, (i + 2) as nat)->Ok_0;
                        assert(pizzas_view(acc@) + (seq![p@] + rest_m) =~= pizzas_view(acc@.push(p))
                            + rest_m);
                    }
                }
                acc.push(p);
            },
        }
        i = i + 1;
    }
    proof {
        assert(lv.skip(n as int) =~= Seq::<Seq<char>>::empty());
        assert(pizzas_view(acc@) + Seq::<PizzaModel>::empty() =~= pizzas_view(acc@));
    }
    Ok(acc)
}

} // verus!
