//! Which price applies to a response, and how many tokens it is charged for.
//!
//! The figures are ESTIMATES of what the usage would cost at API list price. They are not
//! billing data, and on a subscription plan they are not what the user pays.
//!
//! A price is of any type `P`; this module chooses prices and counts tokens, and leaves it
//! to its caller to multiply the two.

use vstd::hash_map::StringHashMap;
use vstd::prelude::*;

use crate::model::TokenUsage;
use crate::text::{chars_of, ends_with, string_of, trim, trimmed, white};

verus! {

/// Price per million tokens.
#[derive(Debug, Clone, Copy, PartialEq)]
pub struct ModelPrice<P> {
    pub input: P,
    pub output: P,
    pub cache_write_5m: P,
    pub cache_write_1h: P,
    pub cache_read: P,
}

/// Fast-mode base rates (per million). Cache multipliers apply on top of these
/// per the pricing page: 1.25x / 2x for writes, 0.1x for reads.
#[derive(Debug, Clone, Copy, PartialEq)]
pub struct FastPrice<P> {
    pub input: P,
    pub output: P,
}

/// The row of the table that a response is charged by.
#[derive(Debug, Clone, Copy, PartialEq)]
pub enum Rate<P> {
    Standard(ModelPrice<P>),
    Fast(FastPrice<P>),
}

/// Tokens by the price that they are charged at.
#[derive(Debug, Clone, Copy, PartialEq, Eq, Structural)]
pub struct BilledTokens {
    pub input: u64,
    pub output: u64,
    pub write_5m: u64,
    pub write_1h: u64,
    pub cache_read: u64,
}

/// What one response is charged: so many tokens at the prices of a row.
#[derive(Debug, Clone, Copy, PartialEq)]
pub struct Charge<P> {
    pub rate: Rate<P>,
    pub tokens: BilledTokens,
}

/// Prices by model.
#[verifier::reject_recursive_types(P)]
pub struct PricingTable<P> {
    pub source: String,
    pub fetched: String,
    pub unit: String,
    pub models: StringHashMap<ModelPrice<P>>,
    pub fast_mode: StringHashMap<FastPrice<P>>,
}

/// The rows of a [`PricingTable`].
#[verifier::reject_recursive_types(P)]
pub struct Prices<P> {
    pub models: Map<Seq<char>, ModelPrice<P>>,
    pub fast_mode: Map<Seq<char>, FastPrice<P>>,
}

impl<P> View for PricingTable<P> {
    type V = Prices<P>;

    open spec fn view(&self) -> Prices<P> {
        Prices { models: self.models@, fast_mode: self.fast_mode@ }
    }
}

impl<P> Prices<P> {
    /// The row that the model is charged by, if there is one. A fast response of a model
    /// without a fast-mode row is charged as a standard one.
    pub open spec fn rate(self, model: Seq<char>, fast: bool) -> Option<Rate<P>> {
        let key = normalized(model);
        if fast && self.fast_mode.contains_key(key) {
            Some(Rate::Fast(self.fast_mode[key]))
        } else if self.models.contains_key(key) {
            Some(Rate::Standard(self.models[key]))
        } else {
            None
        }
    }

    /// What a response is charged.
    pub open spec fn charge(self, model: Seq<char>, usage: TokenUsage, fast: bool) -> Option<
        Charge<P>,
    > {
        match self.rate(model, fast) {
            Some(rate) => Some(Charge { rate, tokens: billed(usage) }),
            None => None,
        }
    }
}

/// A decimal digit.
pub open spec fn is_digit(c: char) -> bool {
    '0' <= c <= '9'
}

/// The text ends with a dash and eight digits, as a model name with a date does.
pub open spec fn is_dated(s: Seq<char>) -> bool {
    &&& s.len() >= 9
    &&& s[s.len() - 9] == '-'
    &&& forall|i: int| s.len() - 8 <= i < s.len() ==> is_digit(#[trigger] s[i])
}

/// A model name as pricing tables write it: without surrounding white space, without the
/// suffix `[1m]`, and then without a date.
pub open spec fn normalized(model: Seq<char>) -> Seq<char> {
    let name = trimmed(model);
    let name = if ends_with(name, "[1m]"@) {
        name.take(name.len() - 4)
    } else {
        name
    };
    if is_dated(name) {
        name.take(name.len() - 9)
    } else {
        name
    }
}

/// The tokens of a response by price. Cache writes go by the TTL breakdown; any remainder
/// without a breakdown is charged at the cheaper 5-minute rate.
pub open spec fn billed(u: TokenUsage) -> BilledTokens {
    let broken_down = u.cache_creation_5m + u.cache_creation_1h;
    let remainder = if u.cache_creation > broken_down {
        u.cache_creation - broken_down
    } else {
        0
    };
    BilledTokens {
        input: u.input,
        output: u.output,
        write_5m: (u.cache_creation_5m + remainder) as u64,
        write_1h: u.cache_creation_1h,
        cache_read: u.cache_read,
    }
}

/// Whether the characters before `to` end with a dash and eight digits.
fn has_date(chars: &Vec<char>, to: usize) -> (r: bool)
    requires
        to <= chars@.len(),
    ensures
        r == is_dated(chars@.take(to as int)),
{
    let ghost s = chars@.take(to as int);
    if to < 9 || chars[to - 9] != '-' {
        return false;
    }
    let mut i: usize = to - 8;
    while i < to
        invariant
            9 <= to <= chars@.len(),
            s == chars@.take(to as int),
            to - 8 <= i <= to,
            forall|k: int| to - 8 <= k < i ==> is_digit(#[trigger] s[k]),
        decreases to - i,
    {
        let c = chars[i];
        if !('0' <= c && c <= '9') {
            assert(!is_digit(s[i as int]));
            return false;
        }
        i += 1;
    }
    true
}

/// The tokens of a response by price.
pub fn billed_tokens(u: &TokenUsage) -> (b: BilledTokens)
    requires
        u.cache_creation_5m + u.cache_creation_1h <= u64::MAX,
    ensures
        b == billed(*u),
        b.input == u.input,
        b.output == u.output,
        b.cache_read == u.cache_read,
        b.write_1h == u.cache_creation_1h,
        b.write_5m >= u.cache_creation_5m,
{
    let broken_down: u64 = u.cache_creation_5m + u.cache_creation_1h;
    let remainder: u64 = u.cache_creation.saturating_sub(broken_down);
    BilledTokens {
        input: u.input,
        output: u.output,
        write_5m: u.cache_creation_5m + remainder,
        write_1h: u.cache_creation_1h,
        cache_read: u.cache_read,
    }
}

impl<P: Copy> PricingTable<P> {
    /// A table without prices.
    pub fn new(source: String, fetched: String, unit: String) -> (t: PricingTable<P>)
        ensures
            t.source == source,
            t.fetched == fetched,
            t.unit == unit,
            t@.models == Map::<Seq<char>, ModelPrice<P>>::empty(),
            t@.fast_mode == Map::<Seq<char>, FastPrice<P>>::empty(),
    {
        PricingTable {
            source,
            fetched,
            unit,
            models: StringHashMap::new(),
            fast_mode: StringHashMap::new(),
        }
    }

    /// Map a transcript model string to a pricing key.
    ///
    /// Strips a `[1m]` context suffix and a trailing `-YYYYMMDD` date
    /// (e.g. `haiku-4-5-20251001` → `haiku-4-5`).
    pub fn normalize(model: &str) -> (key: String)
        ensures
            key@ == normalized(model@),
    {
        let name = trim(model);
        let chars = chars_of(name.as_str());
        let mut to: usize = chars.len();
        proof {
            reveal_strlit("[1m]");
            assert(chars@.take(to as int) =~= chars@);
        }
        if to >= 4 && chars[to - 4] == '[' && chars[to - 3] == '1' && chars[to - 2] == 'm'
            && chars[to - 1] == ']' {
            assert(chars@.skip(to - 4) =~= "[1m]"@);
            to -= 4;
        } else {
            assert(!ends_with(chars@, "[1m]"@)) by {
                if to >= 4 {
                    let tail = chars@.skip(to - 4);
                    assert(tail[0] == chars@[to - 4] && tail[1] == chars@[to - 3] && tail[2]
                        == chars@[to - 2] && tail[3] == chars@[to - 1]);
                }
            }
        }
        let ghost name = chars@.take(to as int);
        if has_date(&chars, to) {
            to -= 9;
            assert(name.take(name.len() - 9) =~= chars@.subrange(0, to as int));
        } else {
            assert(name =~= chars@.subrange(0, to as int));
        }
        string_of(&chars, 0, to)
    }

    /// The standard price of a model.
    pub fn lookup(&self, model: &str) -> (r: Option<&ModelPrice<P>>)
        ensures
            r is Some <==> self@.models.contains_key(normalized(model@)),
            r matches Some(p) ==> *p == self@.models[normalized(model@)],
    {
        self.models.get(Self::normalize(model).as_str())
    }

    /// What a response is charged, or `None` when the model is not in the table.
    pub fn cost(&self, model: &str, usage: &TokenUsage, fast: bool) -> (r: Option<Charge<P>>)
        requires
            self@.rate(model@, fast) is Some ==> usage.cache_creation_5m + usage.cache_creation_1h
                <= u64::MAX,
        ensures
            r == self@.charge(model@, *usage, fast),
    {
        let key = Self::normalize(model);
        if fast {
            if let Some(f) = self.fast_mode.get(key.as_str()) {
                return Some(Charge { rate: Rate::Fast(*f), tokens: billed_tokens(usage) });
            }
        }
        match self.models.get(key.as_str()) {
            Some(p) => Some(Charge { rate: Rate::Standard(*p), tokens: billed_tokens(usage) }),
            None => None,
        }
    }
}

/// Every token of a cache write is charged for once: the total, or the breakdown where that
/// is more.
pub proof fn cache_writes_are_billed_once(u: TokenUsage)
    requires
        u.cache_creation_5m + u.cache_creation_1h <= u64::MAX,
    ensures
        billed(u).write_5m + billed(u).write_1h == if u.cache_creation > u.cache_creation_5m
            + u.cache_creation_1h {
            u.cache_creation as int
        } else {
            u.cache_creation_5m + u.cache_creation_1h
        },
        billed(u).write_1h == u.cache_creation_1h,
{
}

/// A context suffix or a date behind a model's name does not change its key.
pub proof fn suffixes_do_not_matter(name: Seq<char>, date: Seq<char>)
    requires
        name.len() > 0,
        !white(name[0]),
        !white(name.last()),
        !ends_with(name, "[1m]"@),
        !is_dated(name),
        date.len() == 8,
        forall|i: int| 0 <= i < 8 ==> is_digit(#[trigger] date[i]),
    ensures
        normalized(name) == name,
        normalized(name + "[1m]"@) == name,
        normalized(name + seq!['-'] + date) == name,
        normalized(name + seq!['-'] + date + "[1m]"@) == name,
{
    reveal_strlit("[1m]");
    let with_date = name + seq!['-'] + date;
    assert(is_digit(date[7]));
    assert(with_date.last() == date[7]);
    lemma_nothing_to_trim(name);
    lemma_nothing_to_trim(name + "[1m]"@);
    lemma_nothing_to_trim(with_date);
    lemma_nothing_to_trim(with_date + "[1m]"@);
    assert((name + "[1m]"@).skip(name.len() as int) =~= "[1m]"@);
    assert((name + "[1m]"@).take(name.len() as int) =~= name);
    assert(!ends_with(with_date, "[1m]"@)) by {
        assert(with_date.skip(with_date.len() - 4)[3] == date[7]);
    }
    assert((with_date + "[1m]"@).skip(with_date.len() as int) =~= "[1m]"@);
    assert((with_date + "[1m]"@).take(with_date.len() as int) =~= with_date);
    assert(is_dated(with_date)) by {
        assert forall|i: int| with_date.len() - 8 <= i < with_date.len() implies is_digit(
            #[trigger] with_date[i],
        ) by {
            assert(is_digit(date[i - name.len() - 1]));
        }
    }
    assert(with_date.take(with_date.len() - 9) =~= name);
}

proof fn lemma_nothing_to_trim(s: Seq<char>)
    requires
        s.len() > 0,
        !white(s[0]),
        !white(s.last()),
    ensures
        trimmed(s) == s,
{
}

/// A model with a standard price has a price in fast mode too.
pub proof fn fast_mode_falls_back<P>(prices: Prices<P>, model: Seq<char>)
    requires
        prices.rate(model, false) is Some,
    ensures
        prices.rate(model, true) is Some,
        !prices.fast_mode.contains_key(normalized(model)) ==> prices.rate(model, true)
            == prices.rate(model, false),
{
}

/// Input, output and cache reads are charged for exactly as many tokens as were used, each at
/// its own price, whatever the cache writes are.
pub proof fn plain_tokens_are_billed_as_used(u: TokenUsage)
    ensures
        billed(u).input == u.input,
        billed(u).output == u.output,
        billed(u).cache_read == u.cache_read,
        billed(u).write_1h == u.cache_creation_1h,
{
}

/// Cache writes without a breakdown are charged at the 5-minute price; with a breakdown that
/// covers them, each part is charged at its own price.
pub proof fn writes_go_by_their_breakdown(u: TokenUsage)
    requires
        u.cache_creation_5m + u.cache_creation_1h <= u64::MAX,
    ensures
        u.cache_creation_5m == 0 && u.cache_creation_1h == 0 ==> billed(u).write_5m
            == u.cache_creation && billed(u).write_1h == 0,
        u.cache_creation <= u.cache_creation_5m + u.cache_creation_1h ==> billed(u).write_5m
            == u.cache_creation_5m,
        u.cache_creation > u.cache_creation_5m + u.cache_creation_1h ==> billed(u).write_5m
            == u.cache_creation - u.cache_creation_1h,
{
}

/// Thinking tokens are part of the output and are not charged again.
pub proof fn thinking_is_not_billed_twice(u: TokenUsage, thinking: u64)
    ensures
        billed(TokenUsage { thinking, ..u }) == billed(u),
{
}

/// A response is charged by the row of its model: the fast-mode row for a fast response where
/// there is one, and else the standard row. Without either it is not charged, and the usage has
/// no part in the choice.
pub proof fn responses_are_charged_by_their_row<P>(
    prices: Prices<P>,
    model: Seq<char>,
    usage: TokenUsage,
    fast: bool,
)
    ensures
        ({
            let key = normalized(model);
            let r = prices.charge(model, usage, fast);
            &&& fast && prices.fast_mode.contains_key(key) ==> (r matches Some(c)
                && c.rate == Rate::Fast(prices.fast_mode[key]))
            &&& !(fast && prices.fast_mode.contains_key(key)) && prices.models.contains_key(key)
                ==> (r matches Some(c) && c.rate == Rate::Standard(prices.models[key]))
            &&& r is None <==> !prices.models.contains_key(key) && !(fast
                && prices.fast_mode.contains_key(key))
            &&& r matches Some(c) ==> {
                &&& c.tokens.input == usage.input
                &&& c.tokens.output == usage.output
                &&& c.tokens.cache_read == usage.cache_read
                &&& c.tokens.write_1h == usage.cache_creation_1h
                &&& c.tokens == billed(usage)
            }
        }),
{
}

/// A name that ends neither in a context suffix nor in a date is its own key, with any white
/// space around it.
pub proof fn plain_names_are_their_own_keys(before: Seq<char>, name: Seq<char>, after: Seq<char>)
    requires
        forall|i: int| 0 <= i < before.len() ==> white(#[trigger] before[i]),
        forall|i: int| 0 <= i < after.len() ==> white(#[trigger] after[i]),
        name.len() > 0,
        !white(name[0]),
        !white(name.last()),
        !(name.len() >= 4 && name.skip(name.len() - 4) =~= seq!['[', '1', 'm', ']']),
        !(name.len() >= 9 && name[name.len() - 9] == '-' && forall|i: int|
            name.len() - 8 <= i < name.len() ==> '0' <= #[trigger] name[i] <= '9'),
    ensures
        normalized(before + name + after) == name,
{
    reveal_strlit("[1m]");
    assert("[1m]"@ =~= seq!['[', '1', 'm', ']']);
    crate::text::trimming_takes_white_space_only(before, name, after);
    if is_dated(name) {
        assert forall|i: int| name.len() - 8 <= i < name.len() implies '0' <= #[trigger] name[i]
            <= '9' by {
            assert(is_digit(name[i]));
        }
    }
}

/// A context suffix is cut off a name, and a date with it or without.
pub proof fn suffixes_are_cut_off(name: Seq<char>, date: Seq<char>)
    requires
        name.len() > 0,
        !white(name[0]),
        !white(name.last()),
        !(name.len() >= 4 && name.skip(name.len() - 4) =~= seq!['[', '1', 'm', ']']),
        !(name.len() >= 9 && name[name.len() - 9] == '-' && forall|i: int|
            name.len() - 8 <= i < name.len() ==> '0' <= #[trigger] name[i] <= '9'),
        date.len() == 8,
        forall|i: int| 0 <= i < 8 ==> '0' <= #[trigger] date[i] <= '9',
    ensures
        normalized(name + seq!['[', '1', 'm', ']']) == name,
        normalized(name + seq!['-'] + date) == name,
        normalized(name + seq!['-'] + date + seq!['[', '1', 'm', ']']) == name,
{
    reveal_strlit("[1m]");
    assert("[1m]"@ =~= seq!['[', '1', 'm', ']']);
    if is_dated(name) {
        assert forall|i: int| name.len() - 8 <= i < name.len() implies '0' <= #[trigger] name[i]
            <= '9' by {
            assert(is_digit(name[i]));
        }
    }
    assert forall|i: int| 0 <= i < 8 implies is_digit(#[trigger] date[i]) by {
    }
    suffixes_do_not_matter(name, date);
}

/// One context suffix is cut off a name and then one date, whatever stands before them: no second
/// suffix and no second date.
pub proof fn one_suffix_and_one_date_are_cut_off(name: Seq<char>, date: Seq<char>)
    requires
        name.len() > 0 ==> !white(name[0]),
        date.len() == 8,
        forall|i: int| 0 <= i < 8 ==> '0' <= #[trigger] date[i] <= '9',
    ensures
        normalized(name + seq!['-'] + date) == name,
        normalized(name + seq!['-'] + date + seq!['[', '1', 'm', ']']) == name,
        !(name.len() >= 9 && name[name.len() - 9] == '-' && forall|i: int|
            name.len() - 8 <= i < name.len() ==> '0' <= #[trigger] name[i] <= '9') ==> normalized(
            name + seq!['[', '1', 'm', ']'],
        ) == name,
        normalized(Seq::empty()) == Seq::<char>::empty(),
{
    reveal_strlit("[1m]");
    let suffix = seq!['[', '1', 'm', ']'];
    assert("[1m]"@ =~= suffix);
    let none = Seq::<char>::empty();
    let dated = name + seq!['-'] + date;
    assert(dated.last() == date[7]);
    assert('0' <= date[7] <= '9');
    assert(dated[0] == '-' || dated[0] == name[0]);
    crate::text::trimming_takes_white_space_only(none, dated, none);
    assert(none + dated + none =~= dated);
    assert(dated.skip(dated.len() - 4)[3] == date[7]);
    assert(!ends_with(dated, "[1m]"@));
    assert forall|i: int| dated.len() - 8 <= i < dated.len() implies is_digit(#[trigger] dated[i]) by {
        assert(dated[i] == date[i - name.len() - 1]);
    }
    assert(dated.take(dated.len() - 9) =~= name);
    let long = dated + suffix;
    assert(long.last() == ']');
    assert(long[0] == dated[0]);
    crate::text::trimming_takes_white_space_only(none, long, none);
    assert(none + long + none =~= long);
    assert(long.skip(long.len() - 4) =~= suffix);
    assert(long.take(long.len() - 4) =~= dated);
    let short = name + suffix;
    assert(short.last() == ']');
    assert(short[0] == '[' || short[0] == name[0]);
    crate::text::trimming_takes_white_space_only(none, short, none);
    assert(none + short + none =~= short);
    assert(short.skip(short.len() - 4) =~= suffix);
    assert(short.take(short.len() - 4) =~= name);
    if is_dated(name) {
        assert forall|i: int| name.len() - 8 <= i < name.len() implies '0' <= #[trigger] name[i]
            <= '9' by {
            assert(is_digit(name[i]));
        }
    }
    crate::text::trimming_takes_white_space_only(none, none, none);
    assert(none + none + none =~= none);
    assert(!ends_with(none, "[1m]"@));
}

/// A table stands for just the rows that it holds.
pub proof fn tables_are_taken_as_they_are<P>(t: PricingTable<P>)
    ensures
        t@.models == t.models@,
        t@.fast_mode == t.fast_mode@,
{
}

} // verus!
