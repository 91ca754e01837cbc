use vstd::prelude::*;

verus! {

/// Exact billable input-token count for an Anthropic-native route, as a
/// rational number scaled by 20: reads cost 1/10 and writes 5/4 of the base
/// input price, so `20 * billable = 20 * input + 25 * writes + 2 * reads`.
pub open spec fn billable_times_20(input: nat, cached: nat, creation: nat) -> nat {
    20 * input + 25 * creation + 2 * cached
}

/// Round half away from zero of `n / 20` (the numbers are non-negative).
pub open spec fn round_div_20(n: nat) -> nat {
    (n + 10) / 20
}

/// What `billable_input_tokens` returns: the raw input count on every route
/// but Anthropic's; on Anthropic's, input plus writes at 1.25x plus reads at
/// 0.10x, rounded to the nearest integer (halves up) and saturated at
/// `u64::MAX`.
pub open spec fn spec_billable_input_tokens(
    anthropic_native: bool,
    input_tokens: u64,
    cached_input_tokens: u64,
    cache_creation_input_tokens: u64,
) -> u64 {
    if anthropic_native {
        let r = round_div_20(
            billable_times_20(
                input_tokens as nat,
                cached_input_tokens as nat,
                cache_creation_input_tokens as nat,
            ),
        );
        if r > u64::MAX {
            u64::MAX
        } else {
            r as u64
        }
    } else {
        input_tokens
    }
}

/// Effective (billable) input-token count, folding Anthropic's cache tiers
/// into a single number priced at the base input rate. Other providers
/// already fold cached tokens into `input_tokens`, so it is returned as is.
pub fn billable_input_tokens(
    anthropic_native: bool,
    input_tokens: u64,
    cached_input_tokens: u64,
    cache_creation_input_tokens: u64,
) -> (res: u64)
    ensures
        res == spec_billable_input_tokens(
            anthropic_native,
            input_tokens,
            cached_input_tokens,
            cache_creation_input_tokens,
        ),
{
    if anthropic_native {
        let scaled: u128 = 20u128 * (input_tokens as u128) + 25u128 * (
        cache_creation_input_tokens as u128) + 2u128 * (cached_input_tokens as u128);
        let rounded: u128 = (scaled + 10) / 20;
        if rounded > u64::MAX as u128 {
            u64::MAX
        } else {
            rounded as u64
        }
    } else {
        input_tokens
    }
}

} // verus!
