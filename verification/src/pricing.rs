//! Prices of models and what an event's tokens cost.
//!
//! Prices come from a public dataset, a JSON object with one member per model. Entries
//! of the configuration take precedence over it.

use crate::config::PriceOverride;
use crate::json::{parse_json, json_doc, Doc, Json};
use crate::models::Charge;
use crate::number::{zero, Real};
use crate::text::{after_first, law_after_first, opt_str, rest_after, str_eq};
use vstd::hash_map::StringHashMap;
use vstd::prelude::*;

verus! {

/// Seconds after which a cached dataset is fetched anew.
pub const REFRESH_AFTER: u64 = 86_400;

/// Prices of one token of a model.
#[derive(Debug, Clone, Copy, PartialEq, Eq, Structural)]
pub struct ModelPrice {
    pub input: Real,
    pub output: Real,
    pub cache_read: Real,
    pub cache_write: Real,
}

/// The prices known.
pub struct Pricing {
    table: StringHashMap<ModelPrice>,
    overrides: StringHashMap<ModelPrice>,
}

/// The number of the member called `key`, zero where there is none.
pub open spec fn number_or_zero(d: Doc, key: Seq<char>) -> Real {
    match d.number_at(key) {
        Some(x) => x,
        None => zero(),
    }
}

/// The prices that an entry of the dataset gives.
pub open spec fn entry_price(d: Doc) -> ModelPrice {
    ModelPrice {
        input: number_or_zero(d, "input_cost_per_token"@),
        output: number_or_zero(d, "output_cost_per_token"@),
        cache_read: number_or_zero(d, "cache_read_input_token_cost"@),
        cache_write: number_or_zero(d, "cache_creation_input_token_cost"@),
    }
}

/// The prices that the first `n` members of the dataset give: an entry that is an object
/// prices the model it is named after; the entry that documents the format does not count.
pub open spec fn dataset_prices(members: Seq<(Seq<char>, Doc)>, n: int) -> Map<Seq<char>, ModelPrice>
    decreases n,
{
    if n <= 0 {
        Map::empty()
    } else {
        let rest = dataset_prices(members, n - 1);
        let (name, entry) = members[n - 1];
        if name != "sample_spec"@ && entry is Object {
            rest.insert(name, entry_price(entry))
        } else {
            rest
        }
    }
}

/// The prices that a dataset gives.
pub open spec fn doc_prices(d: Doc) -> Map<Seq<char>, ModelPrice> {
    match d {
        Doc::Object(members) => dataset_prices(members, members.len() as int),
        _ => Map::empty(),
    }
}

/// The prices that the text of a dataset gives: none where it is not JSON.
pub open spec fn text_prices(raw: Seq<char>) -> Map<Seq<char>, ModelPrice> {
    match json_doc(raw) {
        Some(d) => doc_prices(d),
        None => Map::empty(),
    }
}

/// The prices that the first `n` configured entries give; a later one for the same model
/// replaces an earlier one.
pub open spec fn override_prices(o: Seq<(String, PriceOverride)>, n: int) -> Map<Seq<char>, ModelPrice>
    decreases n,
{
    if n <= 0 {
        Map::empty()
    } else {
        override_prices(o, n - 1).insert(o[n - 1].0@, o[n - 1].1.price())
    }
}

/// The price of a model: a configured one, else that of the dataset under its full name,
/// else that of the dataset under the name without the provider in front of the first slash.
pub open spec fn price_of(
    overrides: Map<Seq<char>, ModelPrice>,
    table: Map<Seq<char>, ModelPrice>,
    model: Seq<char>,
) -> Option<ModelPrice> {
    if overrides.contains_key(model) {
        Some(overrides[model])
    } else if table.contains_key(model) {
        Some(table[model])
    } else {
        match after_first(model, '/') {
            Some(rest) => if table.contains_key(rest) {
                Some(table[rest])
            } else {
                None
            },
            None => None,
        }
    }
}

/// What the tokens of an event are charged at a model's prices. Reasoning is charged as output.
pub open spec fn charges(
    p: ModelPrice,
    input: i64,
    output: i64,
    cache_read: i64,
    cache_write: i64,
    reasoning: i64,
) -> Seq<Charge> {
    seq![
        Charge { count: input, price: p.input },
        Charge { count: output, price: p.output },
        Charge { count: cache_read, price: p.cache_read },
        Charge { count: cache_write, price: p.cache_write },
        Charge { count: reasoning, price: p.output },
    ]
}

/// The number of the member called `key`, zero where there is none.
fn number_or(j: &Json, key: &str) -> (r: Real)
    ensures
        r == number_or_zero(j.doc(), key@),
{
    match j.number_at(key) {
        Some(x) => x,
        None => Real { bits: 0 },
    }
}

/// The prices that a dataset gives.
pub fn price_table(j: &Json) -> (r: StringHashMap<ModelPrice>)
    ensures
        r@ == doc_prices(j.doc()),
{
    let mut out: StringHashMap<ModelPrice> = StringHashMap::new();
    match j {
        Json::Object(m) => {
            let ghost members = j.doc()->Object_0;
            for i in 0..m.len()
                invariant
                    j.doc() == Doc::Object(members),
                    members.len() == m@.len(),
                    forall|k: int|
                        0 <= k < m@.len() ==> #[trigger] members[k] == (m@[k].0@, m@[k].1.doc()),
                    out@ == dataset_prices(members, i as int),
            {
                assert(members[i as int] == (m@[i as int].0@, m@[i as int].1.doc()));
                let name = &m[i].0;
                let entry = &m[i].1;
                let object = match entry {
                    Json::Object(_) => true,
                    _ => false,
                };
                if object && !str_eq(name.as_str(), "sample_spec") {
                    let price = ModelPrice {
                        input: number_or(entry, "input_cost_per_token"),
                        output: number_or(entry, "output_cost_per_token"),
                        cache_read: number_or(entry, "cache_read_input_token_cost"),
                        cache_write: number_or(entry, "cache_creation_input_token_cost"),
                    };
                    out.insert(name.clone(), price);
                }
            }
        },
        _ => {},
    }
    out
}

/// The prices that the text of a dataset gives.
pub fn parse_litellm(raw: &str) -> (r: StringHashMap<ModelPrice>)
    ensures
        r@ == text_prices(raw@),
{
    match parse_json(raw) {
        Some(j) => price_table(&j),
        None => StringHashMap::new(),
    }
}

impl Pricing {
    /// The prices of the dataset, by model.
    pub closed spec fn table(&self) -> Map<Seq<char>, ModelPrice> {
        self.table@
    }

    /// The configured prices, by model.
    pub closed spec fn overrides(&self) -> Map<Seq<char>, ModelPrice> {
        self.overrides@
    }

    /// The price of a model.
    pub open spec fn price(&self, model: Seq<char>) -> Option<ModelPrice> {
        price_of(self.overrides(), self.table(), model)
    }

    /// What the tokens of an event are charged, and whether the model has a price. Without
    /// a model, or a price for it, there is no charge.
    pub open spec fn costs(
        &self,
        model: Option<Seq<char>>,
        input: i64,
        output: i64,
        cache_read: i64,
        cache_write: i64,
        reasoning: i64,
    ) -> (Seq<Charge>, bool) {
        match model {
            Some(m) => match self.price(m) {
                Some(p) => (charges(p, input, output, cache_read, cache_write, reasoning), true),
                None => (Seq::empty(), false),
            },
            None => (Seq::empty(), false),
        }
    }

    /// The prices of a dataset and of the configuration.
    pub fn load(raw: &str, overrides: &Vec<(String, PriceOverride)>) -> (r: Pricing)
        ensures
            r.table() == text_prices(raw@),
            r.overrides() == override_prices(overrides@, overrides@.len() as int),
    {
        let table = parse_litellm(raw);
        let mut own: StringHashMap<ModelPrice> = StringHashMap::new();
        for i in 0..overrides.len()
            invariant
                own@ == override_prices(overrides@, i as int),
        {
            let name = overrides[i].0.clone();
            own.insert(name, overrides[i].1.to_price());
        }
        Pricing { table, overrides: own }
    }

    /// The number of models that the dataset prices.
    pub fn len(&self) -> (r: usize)
        ensures
            r == self.table().len(),
    {
        self.table.len()
    }

    /// The price of a model.
    pub fn lookup(&self, model: &str) -> (r: Option<ModelPrice>)
        ensures
            r == self.price(model@),
    {
        match self.overrides.get(model) {
            Some(p) => return Some(*p),
            None => {},
        }
        match self.table.get(model) {
            Some(p) => return Some(*p),
            None => {},
        }
        match rest_after(model, '/') {
            Some(rest) => match self.table.get(rest.as_str()) {
                Some(p) => Some(*p),
                None => None,
            },
            None => None,
        }
    }

    /// What the tokens of an event are charged, and whether the model has a price.
    pub fn cost(
        &self,
        model: Option<&str>,
        input: i64,
        output: i64,
        cache_read: i64,
        cache_write: i64,
        reasoning: i64,
    ) -> (r: (Vec<Charge>, bool))
        ensures
            (r.0@, r.1) == self.costs(
                opt_str(model),
                input,
                output,
                cache_read,
                cache_write,
                reasoning,
            ),
    {
        let mut v: Vec<Charge> = Vec::new();
        match model {
            Some(m) => match self.lookup(m) {
                Some(p) => {
                    v.push(Charge { count: input, price: p.input });
                    v.push(Charge { count: output, price: p.output });
                    v.push(Charge { count: cache_read, price: p.cache_read });
                    v.push(Charge { count: cache_write, price: p.cache_write });
                    v.push(Charge { count: reasoning, price: p.output });
                    assert(v@ =~= charges(p, input, output, cache_read, cache_write, reasoning));
                    (v, true)
                },
                None => (v, false),
            },
            None => (v, false),
        }
    }
}

impl Default for Pricing {
    /// No prices at all.
    fn default() -> (r: Pricing)
        ensures
            r.table() == Map::<Seq<char>, ModelPrice>::empty(),
            r.overrides() == Map::<Seq<char>, ModelPrice>::empty(),
    {
        Pricing { table: StringHashMap::new(), overrides: StringHashMap::new() }
    }
}

/// A configured price is used whatever the dataset says, under the model's exact name.
pub proof fn law_override_wins(p: Pricing, model: Seq<char>)
    requires
        p.overrides().contains_key(model),
    ensures
        p.price(model) == Some(p.overrides()[model]),
{
}

/// Nothing is guessed: a model that neither the configuration nor the dataset names, nor
/// the dataset without its provider, has no price and is charged nothing.
pub proof fn law_unknown_model_costs_nothing(
    p: Pricing,
    model: Seq<char>,
    input: i64,
    output: i64,
    cache_read: i64,
    cache_write: i64,
    reasoning: i64,
)
    requires
        !p.overrides().contains_key(model),
        !p.table().contains_key(model),
        after_first(model, '/') matches Some(rest) ==> !p.table().contains_key(rest),
    ensures
        p.price(model) is None,
        p.costs(Some(model), input, output, cache_read, cache_write, reasoning) == (
            Seq::<Charge>::empty(),
            false,
        ),
{
}

/// Reasoning tokens cost what as many more output tokens would: the charges of both are
/// at one price.
pub proof fn law_reasoning_at_output_price(
    p: Pricing,
    model: Seq<char>,
    input: i64,
    output: i64,
    cache_read: i64,
    cache_write: i64,
    reasoning: i64,
)
    requires
        p.price(model) is Some,
    ensures
        ({
            let c = p.costs(Some(model), input, output, cache_read, cache_write, reasoning).0;
            c.len() == 5 && c[4].count == reasoning && c[1].count == output && c[4].price == c[1].price
        }),
{
}

/// What to do next to get hold of the dataset.
#[derive(Debug, Clone, Copy, PartialEq, Eq, Structural)]
pub enum PriceStep {
    /// Read the cache, which is young enough.
    ReadCache,
    /// Fetch the dataset.
    Fetch,
    /// Write what was fetched to the cache, and use it.
    StoreAndUse,
    /// Read the cache, whatever its age.
    ReadStale,
    /// Use what was read.
    Use,
    /// Give up: there is no dataset to be had.
    Fail,
}

/// The first step, given the age of the cache in whole seconds if there is one.
pub fn first_step(age: Option<u64>) -> (r: PriceStep)
    ensures
        r == if age matches Some(a) && a < REFRESH_AFTER {
            PriceStep::ReadCache
        } else {
            PriceStep::Fetch
        },
{
    match age {
        Some(a) => if a < REFRESH_AFTER {
            PriceStep::ReadCache
        } else {
            PriceStep::Fetch
        },
        None => PriceStep::Fetch,
    }
}

/// The step after one that went well or not: a young cache that cannot be read is fetched
/// anew, and a fetch that fails falls back on whatever the cache holds.
pub open spec fn step_after(step: PriceStep, ok: bool) -> PriceStep {
    match step {
        PriceStep::ReadCache => if ok {
            PriceStep::Use
        } else {
            PriceStep::Fetch
        },
        PriceStep::Fetch => if ok {
            PriceStep::StoreAndUse
        } else {
            PriceStep::ReadStale
        },
        PriceStep::ReadStale => if ok {
            PriceStep::Use
        } else {
            PriceStep::Fail
        },
        PriceStep::StoreAndUse => PriceStep::StoreAndUse,
        PriceStep::Use => PriceStep::Use,
        PriceStep::Fail => PriceStep::Fail,
    }
}

/// The step after one that went well or not.
pub fn next_step(step: PriceStep, ok: bool) -> (r: PriceStep)
    ensures
        r == step_after(step, ok),
{
    match step {
        PriceStep::ReadCache => if ok {
            PriceStep::Use
        } else {
            PriceStep::Fetch
        },
        PriceStep::Fetch => if ok {
            PriceStep::StoreAndUse
        } else {
            PriceStep::ReadStale
        },
        PriceStep::ReadStale => if ok {
            PriceStep::Use
        } else {
            PriceStep::Fail
        },
        PriceStep::StoreAndUse => PriceStep::StoreAndUse,
        PriceStep::Use => PriceStep::Use,
        PriceStep::Fail => PriceStep::Fail,
    }
}

/// Getting hold of the dataset ends after at most three steps, whatever goes well, and fails
/// only if neither the fetch nor the cache gives it.
pub proof fn law_loading_ends(first: PriceStep, a: bool, b: bool, c: bool)
    requires
        first == PriceStep::ReadCache || first == PriceStep::Fetch,
    ensures
        ({
            let x = step_after(first, a);
            let y = step_after(x, b);
            let z = step_after(y, c);
            &&& z == PriceStep::Use || z == PriceStep::StoreAndUse || z == PriceStep::Fail
            &&& first == PriceStep::ReadCache && a ==> z == PriceStep::Use
            &&& first == PriceStep::Fetch && a ==> z == PriceStep::StoreAndUse
            &&& z == PriceStep::Fail <==> first == PriceStep::ReadCache && !a && !b && !c || first
                == PriceStep::Fetch && !a && !b
        }),
{
}

/// A model that is not overridden and that the dataset names has the dataset's price under that
/// name, also where the name holds a slash and the dataset prices what follows it.
pub proof fn law_dataset_name_wins(p: Pricing, model: Seq<char>)
    requires
        !p.overrides().contains_key(model),
        p.table().contains_key(model),
    ensures
        p.price(model) == Some(p.table()[model]),
{
}

/// A provider in front of a name is passed over where the dataset does not know the whole:
/// such a model has the price of the name that follows the first slash.
pub proof fn law_provider_is_passed_over(p: Pricing, provider: Seq<char>, name: Seq<char>)
    requires
        !provider.contains('/'),
        !p.overrides().contains_key(provider + seq!['/'] + name),
        !p.table().contains_key(provider + seq!['/'] + name),
    ensures
        p.table().contains_key(name) ==> p.price(provider + seq!['/'] + name) == Some(
            p.table()[name],
        ),
        !p.table().contains_key(name) ==> p.price(provider + seq!['/'] + name) is None,
{
    let model = provider + seq!['/'] + name;
    law_after_first(model, '/');
    assert(model[provider.len() as int] == '/');
    assert(model.contains('/'));
    let rest = after_first(model, '/')->0;
    let k = model.len() - rest.len() - 1;
    if k < provider.len() {
        assert(provider[k] == '/');
        assert(provider.contains('/'));
    }
    assert(k == provider.len());
    assert(rest =~= name);
}

/// The prices under which a model's tokens are charged do not depend on other models: two sets
/// of prices that agree on a name, and on what follows its first slash, price it alike.
pub proof fn law_price_is_of_the_name(p: Pricing, q: Pricing, model: Seq<char>)
    requires
        p.overrides().contains_key(model) == q.overrides().contains_key(model),
        p.overrides().contains_key(model) ==> p.overrides()[model] == q.overrides()[model],
        p.table().contains_key(model) == q.table().contains_key(model),
        p.table().contains_key(model) ==> p.table()[model] == q.table()[model],
        after_first(model, '/') matches Some(rest) ==> p.table().contains_key(rest)
            == q.table().contains_key(rest) && (p.table().contains_key(rest) ==> p.table()[rest]
            == q.table()[rest]),
    ensures
        p.price(model) == q.price(model),
{
}

/// Every kind of token is charged, as many as there are and at its own price: a model with a
/// price is charged input, output, cache reads and cache writes at their prices and reasoning
/// at that of output, and the counts charged add up to the tokens.
pub proof fn law_every_token_is_charged(
    p: Pricing,
    model: Seq<char>,
    price: ModelPrice,
    input: i64,
    output: i64,
    cache_read: i64,
    cache_write: i64,
    reasoning: i64,
)
    requires
        p.price(model) == Some(price),
    ensures
        ({
            let (c, priced) = p.costs(Some(model), input, output, cache_read, cache_write, reasoning);
            &&& priced
            &&& c.len() == 5
            &&& c[0].count == input && c[0].price == price.input
            &&& c[1].count == output && c[1].price == price.output
            &&& c[2].count == cache_read && c[2].price == price.cache_read
            &&& c[3].count == cache_write && c[3].price == price.cache_write
            &&& c[4].count == reasoning && c[4].price == price.output
            &&& c[0].count + c[1].count + c[2].count + c[3].count + c[4].count == input + output
                + cache_read + cache_write + reasoning
        }),
        p.costs(None, input, output, cache_read, cache_write, reasoning).0.len() == 0,
        !p.costs(None, input, output, cache_read, cache_write, reasoning).1,
{
}

/// The dataset prices a model by the last entry of its name that is an object, each price by
/// the member that is called so, and zero where there is none; only the entry that documents
/// the format is passed over.
pub proof fn law_dataset_entry(members: Seq<(Seq<char>, Doc)>, i: int, n: int)
    requires
        0 <= i < n <= members.len(),
        members[i].1 is Object,
        members[i].0 != "sample_spec"@,
        forall|k: int| i < k < n ==> (#[trigger] members[k]).0 != members[i].0,
    ensures
        dataset_prices(members, n).contains_key(members[i].0),
        ({
            let e = members[i].1;
            let p = dataset_prices(members, n)[members[i].0];
            &&& e.number_at("input_cost_per_token"@) matches Some(x) ==> p.input == x
            &&& e.number_at("output_cost_per_token"@) matches Some(x) ==> p.output == x
            &&& e.number_at("cache_read_input_token_cost"@) matches Some(x) ==> p.cache_read == x
            &&& e.number_at("cache_creation_input_token_cost"@) matches Some(x) ==> p.cache_write == x
            &&& e.number_at("input_cost_per_token"@) is None ==> p.input.bits == 0
            &&& e.number_at("output_cost_per_token"@) is None ==> p.output.bits == 0
            &&& e.number_at("cache_read_input_token_cost"@) is None ==> p.cache_read.bits == 0
            &&& e.number_at("cache_creation_input_token_cost"@) is None ==> p.cache_write.bits == 0
        }),
    decreases n,
{
    if i < n - 1 {
        assert(members[n - 1].0 != members[i].0);
        law_dataset_entry(members, i, n - 1);
    }
}

/// The dataset prices nothing but what its entries name: neither the entry that documents the
/// format, nor a name that no object stands under. A text that is no such object prices nothing.
pub proof fn law_dataset_names(raw: Seq<char>, members: Seq<(Seq<char>, Doc)>, n: int, name: Seq<char>)
    requires
        0 <= n <= members.len(),
    ensures
        !dataset_prices(members, n).contains_key("sample_spec"@),
        dataset_prices(members, n).contains_key(name) ==> exists|k: int|
            0 <= k < n && (#[trigger] members[k]).0 == name && members[k].1 is Object,
        json_doc(raw) == Some(Doc::Object(members)) ==> text_prices(raw) == dataset_prices(
            members,
            members.len() as int,
        ),
        !(json_doc(raw) is Some && json_doc(raw)->0 is Object) ==> text_prices(raw) == Map::<
            Seq<char>,
            ModelPrice,
        >::empty(),
    decreases n,
{
    if n > 0 {
        law_dataset_names(raw, members, n - 1, name);
        assert(members[n - 1].0 == members[n - 1].0);
    }
}

/// The last configured entry of a model gives its price, column by column, and what is not
/// configured is not overridden.
pub proof fn law_configured_prices(o: Seq<(String, PriceOverride)>, n: int, name: Seq<char>)
    requires
        0 <= n <= o.len(),
    ensures
        forall|i: int|
            0 <= i < n && (#[trigger] o[i]).0@ == name && (forall|k: int|
                i < k < n ==> (#[trigger] o[k]).0@ != name) ==> {
                &&& override_prices(o, n).contains_key(name)
                &&& override_prices(o, n)[name].input == o[i].1.input
                &&& override_prices(o, n)[name].output == o[i].1.output
                &&& override_prices(o, n)[name].cache_read == o[i].1.cache_read
                &&& override_prices(o, n)[name].cache_write == o[i].1.cache_write
            },
        (forall|k: int| 0 <= k < n ==> (#[trigger] o[k]).0@ != name) ==> !override_prices(
            o,
            n,
        ).contains_key(name),
    decreases n,
{
    if n > 0 {
        law_configured_prices(o, n - 1, name);
        assert(o[n - 1].0@ == o[n - 1].0@);
    }
}

/// A young cache is used without a fetch where it can be read, and a fetch is tried before an
/// old one; what was fetched is kept.
pub proof fn law_cache_before_fetch(ok: bool)
    ensures
        step_after(PriceStep::ReadCache, true) == PriceStep::Use,
        step_after(PriceStep::ReadCache, false) == PriceStep::Fetch,
        step_after(PriceStep::Fetch, true) == PriceStep::StoreAndUse,
        step_after(PriceStep::Fetch, false) == PriceStep::ReadStale,
        step_after(PriceStep::ReadStale, true) == PriceStep::Use,
        step_after(PriceStep::ReadStale, false) == PriceStep::Fail,
        step_after(PriceStep::Use, ok) == PriceStep::Use,
        step_after(PriceStep::StoreAndUse, ok) == PriceStep::StoreAndUse,
        step_after(PriceStep::Fail, ok) == PriceStep::Fail,
{
}

} // verus!
