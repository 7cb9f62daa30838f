//! The settings of the bot, read from text.
use vstd::prelude::*;

use crate::text::{
    case_is_all_that_differs, decimal, equal_ignoring_case, only_digits_are_numbers,
    parse_unsigned, pieces, same_ignoring_case, split, texts, trim, trimmed, unsigned_up_to,
    written_number_is_read_up_to_the_limit,
};

verus! {

/// The routers that are known where none are configured.
pub const DEFAULT_ROUTERS_RAW: &'static str = "0xa5E0829CaCEd8fFDD4De3c43696c57F7D7A678ff:quickswap,0x1b02dA8Cb0d097eB8D57A175b88c7D8b47997506:sushiswap,0xC0788A3aD43d79aa53B09c2EaCc313A787d1d607:apeswap";

/// The factories that are known where none are configured.
pub const DEFAULT_FACTORIES_RAW: &'static str = "quickswap:0x5757371414417b8C6CAad45bAeF941aBc7d3Ab32,sushiswap:0xc35DADB65012eC5796536bD9864eD8773aBc74C4,apeswap:0xCf083Be4164828f00cAE704EC15a36D711491284";

/// The tokens whose pools are looked for where none are configured.
pub const DEFAULT_TOKEN_LIST_RAW: &'static str = "0x0d500B1d8E8eF31E21C99d1Db9A6444d3ADf1270,0x2791Bca1f2de4661ED88A30C99A7a9449Aa84174,0x7ceb23fd6bc0Add59E62ac25578270cff1b9f619,0x1BFD67037B42Cf73acF2047067bd4F2C47D9BfD6,0x8f3Cf7ad23Cd3CaDbD9735AFf958023239c6A063,0xc2132D05D31c914a87C6611C10748AEb04B58e8F";

/// The builder's share of the net profit, in ten-thousandths.
pub const DEFAULT_BRIBE_BPS: u64 = 9000;

/// The largest share of the net profit that may be configured.
pub const DEFAULT_MAX_BRIBE_BPS: u64 = 9000;

/// The share of the net profit that no configuration goes beyond.
pub const BRIBE_CEILING_BPS: u64 = 9999;

/// How many simulations run at once.
pub const DEFAULT_SIM_CONCURRENCY: usize = 128;

/// How many blocks ahead a bundle may run.
pub const DEFAULT_BUNDLE_BLOCK_WINDOW: u64 = 3;

/// The port of the dashboard.
pub const DEFAULT_DASHBOARD_PORT: u16 = 4000;

/// Whether a text switches a setting on.
pub open spec fn is_on(s: Seq<char>) -> bool {
    ||| same_ignoring_case(s, "1"@)
    ||| same_ignoring_case(s, "true"@)
    ||| same_ignoring_case(s, "yes"@)
    ||| same_ignoring_case(s, "on"@)
}

/// Reads a switch: on for `1`, `true`, `yes` and `on` in any case, off for any
/// other text; the default where it is not set.
pub fn env_flag(value: Option<&str>, default: bool) -> (r: bool)
    ensures
        r == (match value {
            Some(s) => is_on(s@),
            None => default,
        }),
{
    match value {
        Some(s) => equal_ignoring_case(s, "1") || equal_ignoring_case(s, "true")
            || equal_ignoring_case(s, "yes") || equal_ignoring_case(s, "on"),
        None => default,
    }
}

/// The number that an optional text spells, where it is at most `max`; the default
/// where there is none.
pub open spec fn number_or(value: Option<&str>, max: nat, default: nat) -> nat {
    match value {
        Some(s) => match unsigned_up_to(s@, max) {
            Some(n) => n,
            None => default,
        },
        None => default,
    }
}

/// Reads a number; the default where it is not set or not a number.
pub fn env_u64(value: Option<&str>, default: u64) -> (r: u64)
    ensures
        r == number_or(value, u64::MAX as nat, default as nat),
{
    match value {
        Some(s) => match parse_unsigned(s, u64::MAX) {
            Some(n) => n,
            None => default,
        },
        None => default,
    }
}

/// Reads a number of machine size; the default where it is not set or not a
/// number.
pub fn env_usize(value: Option<&str>, default: usize) -> (r: usize)
    ensures
        r == number_or(value, usize::MAX as nat, default as nat),
{
    match value {
        Some(s) => match parse_unsigned(s, usize::MAX as u64) {
            Some(n) => n as usize,
            None => default,
        },
        None => default,
    }
}

/// Reads the port of the dashboard; the default one where it is not set or not a
/// port.
pub fn dashboard_port(value: Option<&str>) -> (r: u16)
    ensures
        r == number_or(value, u16::MAX as nat, DEFAULT_DASHBOARD_PORT as nat),
{
    match value {
        Some(s) => match parse_unsigned(s, u16::MAX as u64) {
            Some(n) => n as u16,
            None => DEFAULT_DASHBOARD_PORT,
        },
        None => DEFAULT_DASHBOARD_PORT,
    }
}

/// The smaller of two numbers.
pub open spec fn smaller(a: u64, b: u64) -> u64 {
    if a < b {
        a
    } else {
        b
    }
}

/// The builder's share and its limit.
pub struct BribeLimits {
    pub bribe_bps: u64,
    pub max_bribe_bps: u64,
    /// Whether the configured share was beyond the limit.
    pub reduced: bool,
}

/// Limits the configured share of the builder to the configured limit, and that
/// one to less than the whole profit.
pub fn limit_bribe(configured_bps: u64, configured_max_bps: u64) -> (r: BribeLimits)
    ensures
        r.max_bribe_bps == smaller(configured_max_bps, BRIBE_CEILING_BPS),
        r.bribe_bps == smaller(configured_bps, r.max_bribe_bps),
        r.reduced == (configured_bps > r.max_bribe_bps),
        r.bribe_bps < 10_000,
{
    let max_bribe_bps: u64 = if configured_max_bps < BRIBE_CEILING_BPS {
        configured_max_bps
    } else {
        BRIBE_CEILING_BPS
    };
    let reduced = configured_bps > max_bribe_bps;
    BribeLimits {
        bribe_bps: if reduced {
            max_bribe_bps
        } else {
            configured_bps
        },
        max_bribe_bps,
        reduced,
    }
}

/// The number of blocks ahead that a bundle may run: one at least.
pub fn block_window(configured: u64) -> (r: u64)
    ensures
        r == (if configured < 1 {
            1
        } else {
            configured
        }),
{
    if configured < 1 {
        1
    } else {
        configured
    }
}

/// A setting that counts only where it is not empty.
pub fn nonempty(value: Option<String>) -> (r: Option<String>)
    ensures
        r == (match value {
            Some(s) => if s@.len() > 0 {
                value
            } else {
                None
            },
            None => None,
        }),
{
    match value {
        Some(s) => if s.as_str().is_empty() {
            None
        } else {
            Some(s)
        },
        None => None,
    }
}

/// The texts of a list without blanks around them, the empty ones left out.
pub open spec fn filled(list: Seq<Seq<char>>) -> Seq<Seq<char>>
    decreases list.len(),
{
    if list.len() == 0 {
        Seq::empty()
    } else {
        let before = filled(list.drop_last());
        let last = trimmed(list.last());
        if last.len() > 0 {
            before.push(last)
        } else {
            before
        }
    }
}

/// The builders that are configured, separated by commas; the known ones where
/// the setting is missing or empty.
pub open spec fn builders_in(value: Option<&str>) -> Seq<Seq<char>> {
    match value {
        Some(s) => if s@.len() > 0 {
            filled(pieces(s@, ','))
        } else {
            default_builder_texts()
        },
        None => default_builder_texts(),
    }
}

/// The builders that are known where none are configured.
pub open spec fn default_builder_texts() -> Seq<Seq<char>> {
    seq!["https://polygon.api.blxrbdn.com"@, "https://rpc.fastlane.finance"@]
}

fn default_builders() -> (r: Vec<String>)
    ensures
        texts(r@) == default_builder_texts(),
{
    let mut r: Vec<String> = Vec::new();
    r.push("https://polygon.api.blxrbdn.com".to_owned());
    r.push("https://rpc.fastlane.finance".to_owned());
    assert(texts(r@) =~= default_builder_texts());
    r
}

/// Reads the list of builders.
pub fn parse_builder_urls(value: Option<&str>) -> (r: Vec<String>)
    ensures
        texts(r@) == builders_in(value),
{
    let raw = match value {
        Some(s) => s,
        None => {
            return default_builders();
        },
    };
    if raw.is_empty() {
        return default_builders();
    }
    let list = split(raw, ',');
    let ghost all = pieces(raw@, ',');
    let mut urls: Vec<String> = Vec::new();
    let mut i: usize = 0;
    assert(all.take(0) =~= Seq::empty());
    assert(texts(urls@) =~= Seq::empty());
    while i < list.len()
        invariant
            texts(list@) == all,
            i <= list.len(),
            texts(urls@) == filled(all.take(i as int)),
        decreases list.len() - i,
    {
        let ghost before = urls@;
        proof {
            assert(all.take(i + 1).drop_last() =~= all.take(i as int));
            assert(all.take(i + 1).last() == texts(list@)[i as int]);
        }
        let url = trim(list[i].as_str());
        if !url.as_str().is_empty() {
            let ghost text = url@;
            urls.push(url);
            assert(texts(urls@) =~= texts(before).push(text));
        }
        i = i + 1;
    }
    assert(all.take(i as int) =~= all);
    urls
}

/// Four words switch a setting on, in any case: `1`, `true`, `yes` and `on`; each of
/// them, letter by letter, and no other text.
pub proof fn four_words_switch_on(s: Seq<char>)
    ensures
        is_on(s) <==> {
            ||| s =~= seq!['1']
            ||| same_ignoring_case(s, seq!['o', 'n'])
            ||| same_ignoring_case(s, seq!['y', 'e', 's'])
            ||| same_ignoring_case(s, seq!['t', 'r', 'u', 'e'])
        },
{
    reveal_strlit("1");
    reveal_strlit("true");
    reveal_strlit("yes");
    reveal_strlit("on");
    assert("1"@ =~= seq!['1']);
    assert("on"@ =~= seq!['o', 'n']);
    assert("yes"@ =~= seq!['y', 'e', 's']);
    assert("true"@ =~= seq!['t', 'r', 'u', 'e']);
    case_is_all_that_differs(s, seq!['1']);
    if same_ignoring_case(s, seq!['1']) {
        assert(s[0] as int == 49);
        assert(s =~= seq!['1']);
    }
}

/// The builders of two lists of texts are those of the one and then those of the other
/// one; a text counts for what is left of it without the blanks around it, and for
/// nothing where nothing is left.
pub proof fn each_text_names_its_builder(
    first: Seq<Seq<char>>,
    second: Seq<Seq<char>>,
    text: Seq<char>,
)
    ensures
        filled(first + second) == filled(first) + filled(second),
        trimmed(text).len() > 0 ==> filled(seq![text]) == seq![trimmed(text)],
        trimmed(text).len() == 0 ==> filled(seq![text]).len() == 0,
    decreases second.len(),
{
    reveal_with_fuel(filled, 2);
    assert(seq![text].drop_last() =~= Seq::empty());
    if trimmed(text).len() > 0 {
        assert(filled(seq![text]) =~= seq![trimmed(text)]);
    }
    if second.len() == 0 {
        assert(first + second =~= first);
        assert(filled(first) + filled(second) =~= filled(first));
    } else {
        each_text_names_its_builder(first, second.drop_last(), text);
        assert((first + second).drop_last() =~= first + second.drop_last());
        assert((first + second).last() == second.last());
        assert(filled(first + second) =~= filled(first) + filled(second));
    }
}

/// Builders that are configured replace the known ones; a setting that is missing or
/// empty leaves the two known ones.
pub proof fn configured_builders_replace_the_known_ones(s: &str)
    ensures
        s@.len() > 0 ==> builders_in(Some(s)) == filled(pieces(s@, ',')),
        s@.len() == 0 ==> builders_in(Some(s)) == builders_in(None),
        builders_in(None).len() == 2,
        builders_in(None)[0] == "https://polygon.api.blxrbdn.com"@,
        builders_in(None)[1] == "https://rpc.fastlane.finance"@,
{
}

/// A number that is set is taken where it is at most the limit; a setting that is
/// missing, no number or beyond the limit leaves the default.
pub proof fn set_number_replaces_the_default(s: &str, n: nat, max: nat, default: nat)
    ensures
        s@ == decimal(n) && n <= max ==> number_or(Some(s), max, default) == n,
        s@ == decimal(n) && n > max ==> number_or(Some(s), max, default) == default,
        s@.len() == 0 ==> number_or(Some(s), max, default) == default,
        number_or(None, max, default) == default,
{
    written_number_is_read_up_to_the_limit(n, max);
    only_digits_are_numbers(s@, max);
}

/// The builder's share is at most what is configured and at most the limit; it is the
/// smaller one of the two. The limit itself stays below the whole profit.
pub proof fn share_stays_within_its_limits(configured: u64, limit: u64, r: BribeLimits)
    requires
        call_ensures(limit_bribe, (configured, limit), r),
    ensures
        r.bribe_bps <= configured,
        r.bribe_bps <= r.max_bribe_bps,
        r.max_bribe_bps <= limit,
        r.max_bribe_bps <= 9_999,
        limit <= 9_999 ==> r.max_bribe_bps == limit,
        limit > 9_999 ==> r.max_bribe_bps == 9_999,
        configured <= r.max_bribe_bps ==> r.bribe_bps == configured && !r.reduced,
        configured > r.max_bribe_bps ==> r.bribe_bps == r.max_bribe_bps && r.reduced,
{
}

/// A bundle may run at least one block ahead; any other number of blocks is taken as
/// configured.
pub proof fn window_has_a_block(configured: u64, r: u64)
    requires
        call_ensures(block_window, (configured,), r),
    ensures
        r > 0,
        configured > 0 ==> r == configured,
        configured == 0 ==> r == 1,
{
}

/// A switch is as its text says, and the default where there is none.
pub proof fn switch_follows_its_text(s: &str, default: bool, set: bool, unset: bool)
    requires
        call_ensures(env_flag, (Some(s), default), set),
        call_ensures(env_flag, (None::<&str>, default), unset),
    ensures
        unset == default,
        s@ == seq!['1'] ==> set,
        same_ignoring_case(s@, seq!['t', 'r', 'u', 'e']) ==> set,
        same_ignoring_case(s@, seq!['y', 'e', 's']) ==> set,
        same_ignoring_case(s@, seq!['o', 'n']) ==> set,
        set ==> 1 <= s@.len() <= 4,
{
    four_words_switch_on(s@);
    case_is_all_that_differs(s@, seq!['t', 'r', 'u', 'e']);
    case_is_all_that_differs(s@, seq!['y', 'e', 's']);
    case_is_all_that_differs(s@, seq!['o', 'n']);
}

/// A setting counts as it is, unless it is missing or empty.
pub proof fn empty_setting_counts_as_missing(value: Option<String>, r: Option<String>)
    requires
        call_ensures(nonempty, (value,), r),
    ensures
        r is Some <==> value is Some && value->0@.len() != 0,
        r is Some ==> r == value,
{
}

} // verus!
