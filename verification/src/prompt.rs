//! Assembling the prompt from the command line's positional tokens.
//!
//! Tokens that look like flags (starting with "--") are dropped until an
//! explicit "--" delimiter is seen; the delimiter itself is dropped, and
//! every token after it is kept literally. The kept tokens are joined with
//! single spaces.

use vstd::prelude::*;

verus! {

/// The byte that joins prompt tokens.
pub const SPACE: u8 = 32;

/// The byte that flags and the delimiter start with.
pub const DASH: u8 = 45;

/// The bytes of the explicit delimiter token "--".
pub open spec fn delimiter_token() -> Seq<u8> {
    seq![DASH, DASH]
}

/// Whether a token starts with "--", making it look like a flag.
pub open spec fn starts_with_dashes(t: Seq<u8>) -> bool {
    t.len() >= 2 && t[0] == DASH && t[1] == DASH
}

/// The tokens of `args[i..]` kept as prompt text. Before the delimiter,
/// tokens starting with "--" are dropped; the first "--" itself is dropped
/// and switches `seen` on; from then every token is kept, flag-shaped or not.
pub open spec fn spec_kept_tokens(args: Seq<Seq<u8>>, i: int, seen: bool) -> Seq<Seq<u8>>
    decreases args.len() - i,
{
    if i < 0 || i >= args.len() {
        Seq::empty()
    } else if !seen && args[i] == delimiter_token() {
        spec_kept_tokens(args, i + 1, true)
    } else if seen || !starts_with_dashes(args[i]) {
        seq![args[i]] + spec_kept_tokens(args, i + 1, seen)
    } else {
        spec_kept_tokens(args, i + 1, seen)
    }
}

/// The given tokens joined with single spaces (none at either end).
pub open spec fn join_with_spaces(ts: Seq<Seq<u8>>) -> Seq<u8>
    decreases ts.len(),
{
    if ts.len() == 0 {
        Seq::empty()
    } else if ts.len() == 1 {
        ts[0]
    } else {
        join_with_spaces(ts.drop_last()) + seq![SPACE] + ts.last()
    }
}

/// The prompt a list of positional tokens assembles to.
pub open spec fn spec_assemble_prompt(args: Seq<Seq<u8>>) -> Seq<u8> {
    join_with_spaces(spec_kept_tokens(args, 0, false))
}

fn is_delimiter(t: &[u8]) -> (r: bool)
    ensures
        r == (t@ == delimiter_token()),
{
    let r = t.len() == 2 && t[0] == DASH && t[1] == DASH;
    proof {
        if r {
            assert(t@ =~= delimiter_token());
        }
    }
    r
}

fn has_flag_shape(t: &[u8]) -> (r: bool)
    ensures
        r == starts_with_dashes(t@),
{
    t.len() >= 2 && t[0] == DASH && t[1] == DASH
}

/// Assembles the prompt: keeps the non-flag tokens (and, after an explicit
/// "--" delimiter, every token), joined with single spaces.
pub fn assemble_prompt(args: &Vec<Vec<u8>>) -> (r: Vec<u8>)
    ensures
        r@ == spec_assemble_prompt(args.deep_view()),
{
    let ghost adv = args.deep_view();
    let mut kept: Vec<Vec<u8>> = Vec::new();
    let mut seen: bool = false;
    let mut i: usize = 0;
    proof {
        assert(kept.deep_view() + spec_kept_tokens(adv, 0, false) =~= spec_kept_tokens(
            adv,
            0,
            false,
        ));
    }
    while i < args.len()
        invariant
            i <= args@.len(),
            adv == args.deep_view(),
            kept.deep_view() + spec_kept_tokens(adv, i as int, seen) =~= spec_kept_tokens(
                adv,
                0,
                false,
            ),
        decreases args@.len() - i,
    {
        proof {
            assert(adv[i as int] =~= args@[i as int]@);
        }
        let keep_it: bool = if !seen && is_delimiter(args[i].as_slice()) {
            seen = true;
            false
        } else if seen || !has_flag_shape(args[i].as_slice()) {
            true
        } else {
            false
        };
        if keep_it {
            let ghost prev = kept.deep_view();
            let t = crate::snippet::clone_bytes(&args[i]);
            kept.push(t);
            proof {
                assert(kept.deep_view() =~= prev.push(adv[i as int]));
                assert(prev.push(adv[i as int]) + spec_kept_tokens(adv, i + 1, seen) =~= prev + (
                seq![adv[i as int]] + spec_kept_tokens(adv, i + 1, seen)));
            }
        }
        i += 1;
    }
    let mut r: Vec<u8> = Vec::new();
    let mut k: usize = 0;
    let ghost kdv = kept.deep_view();
    proof {
        assert(kdv.take(0) =~= Seq::<Seq<u8>>::empty());
        assert(kdv.take(kdv.len() as int) =~= kdv);
    }
    while k < kept.len()
        invariant
            k <= kept@.len(),
            kdv == kept.deep_view(),
            r@ == join_with_spaces(kdv.take(k as int)),
        decreases kept@.len() - k,
    {
        let ghost prev = r@;
        if k > 0 {
            r.push(SPACE);
        }
        let mut b: usize = 0;
        let token = &kept[k];
        while b < token.len()
            invariant
                b <= token@.len(),
                token@ == kept@[k as int]@,
                k < kept@.len(),
                r@ == (if k > 0 {
                    prev.push(SPACE)
                } else {
                    prev
                }) + token@.take(b as int),
            decreases token@.len() - b,
        {
            r.push(token[b]);
            proof {
                assert(token@.take(b + 1) =~= token@.take(b as int).push(token@[b as int]));
            }
            b += 1;
        }
        proof {
            assert(token@.take(token@.len() as int) =~= token@);
            assert(kdv[k as int] =~= kept@[k as int]@);
            let sub_next = kdv.take(k + 1);
            assert(sub_next.drop_last() =~= kdv.take(k as int));
            assert(sub_next.last() == kdv[k as int]);
            if k > 0 {
                assert(r@ =~= join_with_spaces(sub_next.drop_last()) + seq![SPACE]
                    + sub_next.last());
            } else {
                assert(r@ =~= kdv[k as int]);
            }
        }
        k += 1;
    }
    r
}

} // verus!
