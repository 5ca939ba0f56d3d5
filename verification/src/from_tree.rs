//! From expression trees to fragments.
//!
//! Each type of fragment has its own reader, which admits the names of its
//! variants and hands the children to the readers of their types. Where a
//! name stands for more than one variant, the readers settle on one as the
//! decoder of Script does: a disjunction at the place of a `T` is a `T`,
//! and `or_i` at the place of an `E` has its `E` on the left where both
//! sides allow it.

use vstd::prelude::*;
use vstd::slice::slice_to_vec;
use vstd::string::StringSliceAdditionalSpecFns;
use crate::astelem::{count_number, multisig_wf, threshold_wf, ws_wf, E, T, V, W};
use crate::bytes::slice_eq;
use crate::error::{Context, Error, ErrorView};
use crate::expression::{lemma_trees_model, trees_model, Tree, TreeView};
use crate::key::PublicKey;
use crate::list::List;
use crate::names::{
    check_name, classify, is_wrapped_by, key_of, hash_of, misplaced, misplaced_name, name_fault,
    name_of, number_of, read_hash_arg, read_key_arg, read_number, read_time, time_of,
    unwrap_name, unwrapped, wrapped_by, Name,
};

verus! {

/// The wrapper of a fragment that is likely to be taken.
pub const WRAP_LIKELY: u8 = 0x6c;

/// The wrapper of a fragment that is unlikely to be taken.
pub const WRAP_UNLIKELY: u8 = 0x75;

/// The wrapper that moves a fragment to the alternative stack.
pub const WRAP_ALT: u8 = 0x61;

/// Whether an argument is the text `0`.
pub open spec fn is_zero(a: TreeView) -> bool {
    a.args.len() == 0 && a.name == "0".spec_bytes()
}

/// The keys that the arguments from index `i` on spell.
pub open spec fn keys_from(args: Seq<TreeView>, i: int) -> Result<Seq<PublicKey>, ErrorView>
    decreases args.len() - i,
{
    if i < 0 || i >= args.len() {
        Ok(Seq::empty())
    } else {
        match key_of(args[i]) {
            Ok(k) => match keys_from(args, i + 1) {
                Ok(rest) => Ok(seq![k] + rest),
                Err(e) => Err(e),
            },
            Err(e) => Err(e),
        }
    }
}

/// The number and the keys of a multisignature.
pub open spec fn multi_from(name: Seq<u8>, args: Seq<TreeView>) -> Result<
    (u32, List<PublicKey>),
    ErrorView,
> {
    if args.len() < 1 {
        Err(ErrorView::TypeCheck(name))
    } else if args.len() - 1 > 20 {
        Err(ErrorView::CmsTooManyKeys(count_number((args.len() - 1) as nat)))
    } else {
        match number_of(args[0]) {
            Ok(k) => if k > args.len() - 1 {
                Err(ErrorView::TypeCheck(name))
            } else {
                match keys_from(args, 1) {
                    Ok(keys) => Ok((k, List::of(keys))),
                    Err(e) => Err(e),
                }
            },
            Err(e) => Err(e),
        }
    }
}

/// The later children of a threshold that the arguments from index `i` on
/// spell.
pub open spec fn ws_from(args: Seq<TreeView>, i: int, fuel: nat) -> Result<
    Seq<W<PublicKey>>,
    ErrorView,
>
    decreases fuel, 1 + args.len() - i,
{
    if i < 0 || i >= args.len() {
        Ok(Seq::empty())
    } else {
        match tree_w(args[i].name, args[i].args, fuel) {
            Ok(x) => match ws_from(args, i + 1, fuel) {
                Ok(rest) => Ok(seq![x] + rest),
                Err(e) => Err(e),
            },
            Err(e) => Err(e),
        }
    }
}

/// The number and the children of a threshold.
pub open spec fn thresh_from(name: Seq<u8>, args: Seq<TreeView>, fuel: nat) -> Result<
    (u32, E<PublicKey>, List<W<PublicKey>>),
    ErrorView,
>
    decreases fuel, 2 + args.len(),
{
    if args.len() < 2 {
        Err(ErrorView::TypeCheck(name))
    } else {
        match number_of(args[0]) {
            Ok(k) => match tree_e(args[1].name, args[1].args, fuel) {
                Ok(e) => match ws_from(args, 2, fuel) {
                    Ok(ws) => if threshold_wf(k, List::of(ws)) {
                        Ok((k, e, List::of(ws)))
                    } else {
                        Err(ErrorView::TypeCheck(name))
                    },
                    Err(e) => Err(e),
                },
                Err(e) => Err(e),
            },
            Err(e) => Err(e),
        }
    }
}

/// The two children of a fragment, of type `E` and `W`.
pub open spec fn pair_ew(name: Seq<u8>, args: Seq<TreeView>, fuel: nat) -> Result<
    (E<PublicKey>, W<PublicKey>),
    ErrorView,
>
    decreases fuel, 0nat,
{
    if args.len() != 2 {
        Err(ErrorView::TypeCheck(name))
    } else if fuel == 0 {
        Err(ErrorView::ContextError(Context::Depth))
    } else {
        match tree_e(args[0].name, args[0].args, (fuel - 1) as nat) {
            Ok(l) => match tree_w(args[1].name, args[1].args, (fuel - 1) as nat) {
                Ok(r) => Ok((l, r)),
                Err(e) => Err(e),
            },
            Err(e) => Err(e),
        }
    }
}

/// The two children of a fragment, of type `E` and `T`.
pub open spec fn pair_et(name: Seq<u8>, args: Seq<TreeView>, fuel: nat) -> Result<
    (E<PublicKey>, T<PublicKey>),
    ErrorView,
>
    decreases fuel, 0nat,
{
    if args.len() != 2 {
        Err(ErrorView::TypeCheck(name))
    } else if fuel == 0 {
        Err(ErrorView::ContextError(Context::Depth))
    } else {
        match tree_e(args[0].name, args[0].args, (fuel - 1) as nat) {
            Ok(l) => match tree_t(args[1].name, args[1].args, (fuel - 1) as nat) {
                Ok(r) => Ok((l, r)),
                Err(e) => Err(e),
            },
            Err(e) => Err(e),
        }
    }
}

/// The two children of a fragment, of type `E` and `V`.
pub open spec fn pair_ev(name: Seq<u8>, args: Seq<TreeView>, fuel: nat) -> Result<
    (E<PublicKey>, V<PublicKey>),
    ErrorView,
>
    decreases fuel, 0nat,
{
    if args.len() != 2 {
        Err(ErrorView::TypeCheck(name))
    } else if fuel == 0 {
        Err(ErrorView::ContextError(Context::Depth))
    } else {
        match tree_e(args[0].name, args[0].args, (fuel - 1) as nat) {
            Ok(l) => match tree_v(args[1].name, args[1].args, (fuel - 1) as nat) {
                Ok(r) => Ok((l, r)),
                Err(e) => Err(e),
            },
            Err(e) => Err(e),
        }
    }
}

/// The two children of a fragment, of type `V` and `V`.
pub open spec fn pair_vv(name: Seq<u8>, args: Seq<TreeView>, fuel: nat) -> Result<
    (V<PublicKey>, V<PublicKey>),
    ErrorView,
>
    decreases fuel, 0nat,
{
    if args.len() != 2 {
        Err(ErrorView::TypeCheck(name))
    } else if fuel == 0 {
        Err(ErrorView::ContextError(Context::Depth))
    } else {
        match tree_v(args[0].name, args[0].args, (fuel - 1) as nat) {
            Ok(l) => match tree_v(args[1].name, args[1].args, (fuel - 1) as nat) {
                Ok(r) => Ok((l, r)),
                Err(e) => Err(e),
            },
            Err(e) => Err(e),
        }
    }
}

/// The two children of a fragment, of type `V` and `T`.
pub open spec fn pair_vt(name: Seq<u8>, args: Seq<TreeView>, fuel: nat) -> Result<
    (V<PublicKey>, T<PublicKey>),
    ErrorView,
>
    decreases fuel, 0nat,
{
    if args.len() != 2 {
        Err(ErrorView::TypeCheck(name))
    } else if fuel == 0 {
        Err(ErrorView::ContextError(Context::Depth))
    } else {
        match tree_v(args[0].name, args[0].args, (fuel - 1) as nat) {
            Ok(l) => match tree_t(args[1].name, args[1].args, (fuel - 1) as nat) {
                Ok(r) => Ok((l, r)),
                Err(e) => Err(e),
            },
            Err(e) => Err(e),
        }
    }
}

/// The two children of a fragment, of type `T` and `T`.
pub open spec fn pair_tt(name: Seq<u8>, args: Seq<TreeView>, fuel: nat) -> Result<
    (T<PublicKey>, T<PublicKey>),
    ErrorView,
>
    decreases fuel, 0nat,
{
    if args.len() != 2 {
        Err(ErrorView::TypeCheck(name))
    } else if fuel == 0 {
        Err(ErrorView::ContextError(Context::Depth))
    } else {
        match tree_t(args[0].name, args[0].args, (fuel - 1) as nat) {
            Ok(l) => match tree_t(args[1].name, args[1].args, (fuel - 1) as nat) {
                Ok(r) => Ok((l, r)),
                Err(e) => Err(e),
            },
            Err(e) => Err(e),
        }
    }
}

/// The fragment `andor(E,T,0)`.
pub open spec fn and_or(name: Seq<u8>, args: Seq<TreeView>, fuel: nat) -> Result<
    E<PublicKey>,
    ErrorView,
>
    decreases fuel, 0nat,
{
    if !(args.len() == 3 && is_zero(args[2])) {
        Err(ErrorView::TypeCheck(name))
    } else if fuel == 0 {
        Err(ErrorView::ContextError(Context::Depth))
    } else {
        match tree_e(args[0].name, args[0].args, (fuel - 1) as nat) {
            Ok(l) => match tree_t(args[1].name, args[1].args, (fuel - 1) as nat) {
                Ok(r) => Ok(E::CascadeAnd(Box::new(l), Box::new(r))),
                Err(e) => Err(e),
            },
            Err(e) => Err(e),
        }
    }
}

/// The fragment `or_i` at the place of an `E`: with its `E` on the left
/// where the first argument is one, and on the right otherwise.
pub open spec fn either(name: Seq<u8>, args: Seq<TreeView>, fuel: nat) -> Result<
    E<PublicKey>,
    ErrorView,
>
    decreases fuel, 0nat,
{
    if args.len() != 2 {
        Err(ErrorView::TypeCheck(name))
    } else if fuel == 0 {
        Err(ErrorView::ContextError(Context::Depth))
    } else {
        match tree_e(args[0].name, args[0].args, (fuel - 1) as nat) {
            Ok(l) => match tree_t(args[1].name, args[1].args, (fuel - 1) as nat) {
                Ok(r) => Ok(E::SwitchOrLeft(Box::new(l), Box::new(r))),
                Err(e) => Err(e),
            },
            Err(_) => match tree_e(args[1].name, args[1].args, (fuel - 1) as nat) {
                Ok(l) => match tree_t(args[0].name, args[0].args, (fuel - 1) as nat) {
                    Ok(r) => Ok(E::SwitchOrRight(Box::new(l), Box::new(r))),
                    Err(e) => Err(e),
                },
                Err(e) => Err(e),
            },
        }
    }
}

/// The fragment of type `E` that a name with its arguments spells.
pub open spec fn tree_e(name: Seq<u8>, args: Seq<TreeView>, fuel: nat) -> Result<
    E<PublicKey>,
    ErrorView,
>
    decreases fuel, 0nat,
{
    if fuel == 0 {
        Err(ErrorView::ContextError(Context::Depth))
    } else if name_fault(name) is Some {
        Err(name_fault(name)->Some_0)
    } else if wrapped_by(name, WRAP_LIKELY) {
        match tree_t(unwrapped(name), args, (fuel - 1) as nat) {
            Ok(x) => Ok(E::Likely(Box::new(x))),
            Err(e) => Err(e),
        }
    } else if wrapped_by(name, WRAP_UNLIKELY) {
        match tree_t(unwrapped(name), args, (fuel - 1) as nat) {
            Ok(x) => Ok(E::Unlikely(Box::new(x))),
            Err(e) => Err(e),
        }
    } else {
        match classify(name) {
            Name::PkK => if args.len() == 1 {
                match key_of(args[0]) {
                    Ok(x) => Ok(E::CheckSig(x)),
                    Err(e) => Err(e),
                }
            } else {
                Err(ErrorView::TypeCheck(name))
            },
            Name::Multi => match multi_from(name, args) {
                Ok((k, keys)) => Ok(E::CheckMultiSig(k, keys)),
                Err(e) => Err(e),
            },
            Name::Delay => if args.len() == 1 {
                match time_of(args[0]) {
                    Ok(x) => Ok(E::Time(x)),
                    Err(e) => Err(e),
                }
            } else {
                Err(ErrorView::TypeCheck(name))
            },
            Name::Thresh => match thresh_from(name, args, (fuel - 1) as nat) {
                Ok((k, e, ws)) => Ok(E::Threshold(k, Box::new(e), ws)),
                Err(e) => Err(e),
            },
            Name::AndB => match pair_ew(name, args, (fuel - 1) as nat) {
                Ok((l, r)) => Ok(E::ParallelAnd(Box::new(l), Box::new(r))),
                Err(e) => Err(e),
            },
            Name::AndOr => and_or(name, args, (fuel - 1) as nat),
            Name::OrB => match pair_ew(name, args, (fuel - 1) as nat) {
                Ok((l, r)) => Ok(E::ParallelOr(Box::new(l), Box::new(r))),
                Err(e) => Err(e),
            },
            Name::OrD => match pair_et(name, args, (fuel - 1) as nat) {
                Ok((l, r)) => Ok(E::CascadeOr(Box::new(l), Box::new(r))),
                Err(e) => Err(e),
            },
            Name::OrI => either(name, args, (fuel - 1) as nat),
            _ => Err(misplaced(name)),
        }
    }
}

/// The fragment of type `W` that a name with its arguments spells.
pub open spec fn tree_w(name: Seq<u8>, args: Seq<TreeView>, fuel: nat) -> Result<
    W<PublicKey>,
    ErrorView,
>
    decreases fuel, 0nat,
{
    if fuel == 0 {
        Err(ErrorView::ContextError(Context::Depth))
    } else if name_fault(name) is Some {
        Err(name_fault(name)->Some_0)
    } else if wrapped_by(name, WRAP_ALT) {
        match tree_e(unwrapped(name), args, (fuel - 1) as nat) {
            Ok(x) => Ok(W::CastE(Box::new(x))),
            Err(e) => Err(e),
        }
    } else {
        match classify(name) {
            Name::SwapPkK => if args.len() == 1 {
                match key_of(args[0]) {
                    Ok(x) => Ok(W::CheckSig(x)),
                    Err(e) => Err(e),
                }
            } else {
                Err(ErrorView::TypeCheck(name))
            },
            Name::SwapHash => if args.len() == 1 {
                match hash_of(args[0]) {
                    Ok(x) => Ok(W::HashEqual(x)),
                    Err(e) => Err(e),
                }
            } else {
                Err(ErrorView::TypeCheck(name))
            },
            Name::SwapDelay => if args.len() == 1 {
                match time_of(args[0]) {
                    Ok(x) => Ok(W::Time(x)),
                    Err(e) => Err(e),
                }
            } else {
                Err(ErrorView::TypeCheck(name))
            },
            _ => Err(misplaced(name)),
        }
    }
}

/// The fragment of type `V` that a name with its arguments spells.
pub open spec fn tree_v(name: Seq<u8>, args: Seq<TreeView>, fuel: nat) -> Result<
    V<PublicKey>,
    ErrorView,
>
    decreases fuel, 0nat,
{
    if fuel == 0 {
        Err(ErrorView::ContextError(Context::Depth))
    } else if name_fault(name) is Some {
        Err(name_fault(name)->Some_0)
    } else {
        match classify(name) {
            Name::VerifyPkK => if args.len() == 1 {
                match key_of(args[0]) {
                    Ok(x) => Ok(V::CheckSig(x)),
                    Err(e) => Err(e),
                }
            } else {
                Err(ErrorView::TypeCheck(name))
            },
            Name::VerifyMulti => match multi_from(name, args) {
                Ok((k, keys)) => Ok(V::CheckMultiSig(k, keys)),
                Err(e) => Err(e),
            },
            Name::VerifyOlder => if args.len() == 1 {
                match time_of(args[0]) {
                    Ok(x) => Ok(V::Time(x)),
                    Err(e) => Err(e),
                }
            } else {
                Err(ErrorView::TypeCheck(name))
            },
            Name::VerifyHash => if args.len() == 1 {
                match hash_of(args[0]) {
                    Ok(x) => Ok(V::HashEqual(x)),
                    Err(e) => Err(e),
                }
            } else {
                Err(ErrorView::TypeCheck(name))
            },
            Name::AndV => match pair_vv(name, args, (fuel - 1) as nat) {
                Ok((l, r)) => Ok(V::And(Box::new(l), Box::new(r))),
                Err(e) => Err(e),
            },
            Name::OrI => match pair_vv(name, args, (fuel - 1) as nat) {
                Ok((l, r)) => Ok(V::SwitchOr(Box::new(l), Box::new(r))),
                Err(e) => Err(e),
            },
            Name::VerifyOrI => match pair_tt(name, args, (fuel - 1) as nat) {
                Ok((l, r)) => Ok(V::SwitchOrT(Box::new(l), Box::new(r))),
                Err(e) => Err(e),
            },
            Name::OrC => match pair_ev(name, args, (fuel - 1) as nat) {
                Ok((l, r)) => Ok(V::CascadeOr(Box::new(l), Box::new(r))),
                Err(e) => Err(e),
            },
            Name::VerifyThresh => match thresh_from(name, args, (fuel - 1) as nat) {
                Ok((k, e, ws)) => Ok(V::Threshold(k, Box::new(e), ws)),
                Err(e) => Err(e),
            },
            _ => Err(misplaced(name)),
        }
    }
}

/// The fragment of type `T` that a name with its arguments spells.
pub open spec fn tree_t(name: Seq<u8>, args: Seq<TreeView>, fuel: nat) -> Result<
    T<PublicKey>,
    ErrorView,
>
    decreases fuel, 1nat,
{
    if fuel == 0 {
        Err(ErrorView::ContextError(Context::Depth))
    } else if name_fault(name) is Some {
        Err(name_fault(name)->Some_0)
    } else {
        match classify(name) {
            Name::Older => if args.len() == 1 {
                match time_of(args[0]) {
                    Ok(x) => Ok(T::Time(x)),
                    Err(e) => Err(e),
                }
            } else {
                Err(ErrorView::TypeCheck(name))
            },
            Name::After => if args.len() == 1 {
                match time_of(args[0]) {
                    Ok(x) => Ok(T::After(x)),
                    Err(e) => Err(e),
                }
            } else {
                Err(ErrorView::TypeCheck(name))
            },
            Name::Hash256 => if args.len() == 1 {
                match hash_of(args[0]) {
                    Ok(x) => Ok(T::HashEqual(x)),
                    Err(e) => Err(e),
                }
            } else {
                Err(ErrorView::TypeCheck(name))
            },
            Name::AndV => match pair_vt(name, args, (fuel - 1) as nat) {
                Ok((l, r)) => Ok(T::And(Box::new(l), Box::new(r))),
                Err(e) => Err(e),
            },
            Name::OrB => match pair_ew(name, args, (fuel - 1) as nat) {
                Ok((l, r)) => Ok(T::ParallelOr(Box::new(l), Box::new(r))),
                Err(e) => Err(e),
            },
            Name::OrD => match pair_et(name, args, (fuel - 1) as nat) {
                Ok((l, r)) => Ok(T::CascadeOr(Box::new(l), Box::new(r))),
                Err(e) => Err(e),
            },
            Name::OrI => match pair_tt(name, args, (fuel - 1) as nat) {
                Ok((l, r)) => Ok(T::SwitchOr(Box::new(l), Box::new(r))),
                Err(e) => Err(e),
            },
            Name::TrueOrI => match pair_vv(name, args, (fuel - 1) as nat) {
                Ok((l, r)) => Ok(T::SwitchOrV(Box::new(l), Box::new(r))),
                Err(e) => Err(e),
            },
            _ => match tree_e(name, args, fuel) {
                Ok(e) => Ok(T::CastE(Box::new(e))),
                Err(e) => Err(e),
            },
        }
    }
}

/// `acc` followed by what `r` holds, or the error of `r`.
pub open spec fn glue<A>(acc: Seq<A>, r: Result<Seq<A>, ErrorView>) -> Result<Seq<A>, ErrorView> {
    match r {
        Ok(rest) => Ok(acc + rest),
        Err(e) => Err(e),
    }
}

/// Whether a reader answered what its specification says.
pub open spec fn told<X>(r: Result<X, Error>, s: Result<X, ErrorView>) -> bool {
    match r {
        Ok(x) => s == Ok::<X, ErrorView>(x),
        Err(e) => s == Err::<X, ErrorView>(e@),
    }
}

/// A count as a 32-bit number, the largest where it is larger.
fn clamp_count(n: usize) -> (r: u32)
    ensures
        r == count_number(n as nat),
{
    if n <= 0xffff_ffff {
        n as u32
    } else {
        0xffff_ffff
    }
}

/// The error for a fragment with the wrong number or kind of children.
fn type_check(name: &[u8]) -> (r: Error)
    ensures
        r@ == ErrorView::TypeCheck(name@),
{
    Error::TypeCheck(slice_to_vec(name))
}

/// Whether an argument is the text `0`.
fn zero_arg(a: &Tree) -> (r: bool)
    ensures
        r == is_zero(a.model()),
{
    proof {
        lemma_trees_model(a.args@);
    }
    a.args.len() == 0 && slice_eq(a.name.as_slice(), "0".as_bytes())
}

/// Reads the keys that the arguments from index `i` on spell.
fn read_keys(args: &Vec<Tree>, i: usize) -> (r: Result<Vec<PublicKey>, Error>)
    requires
        i <= args.len(),
    ensures
        match r {
            Ok(v) => keys_from(trees_model(args@), i as int) == Ok::<Seq<PublicKey>, ErrorView>(
                v@,
            ) && v@.len() == args@.len() - i,
            Err(e) => keys_from(trees_model(args@), i as int) == Err::<
                Seq<PublicKey>,
                ErrorView,
            >(e@),
        },
{
    proof {
        lemma_trees_model(args@);
    }
    let mut out: Vec<PublicKey> = Vec::new();
    let mut at: usize = i;
    assert(Seq::<PublicKey>::empty() + keys_from(trees_model(args@), i as int)->Ok_0
        =~= keys_from(trees_model(args@), i as int)->Ok_0);
    while at < args.len()
        invariant
            i <= at <= args.len(),
            out@.len() == at - i,
            forall|j: int|
                0 <= j < args@.len() ==> #[trigger] trees_model(args@)[j] == args@[j].model(),
            trees_model(args@).len() == args@.len(),
            keys_from(trees_model(args@), i as int) == glue(
                out@,
                keys_from(trees_model(args@), at as int),
            ),
        decreases args.len() - at,
    {
        let k = read_key_arg(&args[at])?;
        let ghost before = out@;
        out.push(k);
        proof {
            let next = keys_from(trees_model(args@), at + 1);
            if next is Ok {
                assert(before + (seq![k] + next->Ok_0) =~= out@ + next->Ok_0);
            }
        }
        at += 1;
    }
    assert(out@ + Seq::<PublicKey>::empty() =~= out@);
    Ok(out)
}

/// Reads the number and the keys of a multisignature.
fn read_multi(name: &[u8], args: &Vec<Tree>) -> (r: Result<(u32, List<PublicKey>), Error>)
    ensures
        told(r, multi_from(name@, trees_model(args@))),
        r matches Ok((k, keys)) ==> multisig_wf(k, keys),
{
    proof {
        lemma_trees_model(args@);
    }
    if args.len() < 1 {
        return Err(type_check(name));
    }
    let n = args.len() - 1;
    if n > 20 {
        return Err(Error::CmsTooManyKeys(clamp_count(n)));
    }
    let k = read_number(&args[0])?;
    if k as usize > n {
        return Err(type_check(name));
    }
    let keys = read_keys(args, 1)?;
    proof {
        List::<PublicKey>::lemma_seq_of(keys@);
    }
    Ok((k, List::from_vec(keys)))
}

/// The later children of a threshold are well formed.
proof fn lemma_ws_wf(ws: Seq<W<PublicKey>>)
    requires
        forall|i: int| 0 <= i < ws.len() ==> (#[trigger] ws[i]).wf(),
    ensures
        ws_wf(List::of(ws)),
    decreases ws.len(),
{
    if ws.len() > 0 {
        let rest = ws.subrange(1, ws.len() as int);
        assert forall|i: int| 0 <= i < rest.len() implies (#[trigger] rest[i]).wf() by {
            assert(rest[i] == ws[i + 1]);
        }
        lemma_ws_wf(rest);
    }
}

/// Reads the later children of a threshold from index `i` on.
fn read_ws(args: &Vec<Tree>, i: usize, fuel: usize) -> (r: Result<Vec<W<PublicKey>>, Error>)
    requires
        i <= args.len(),
    ensures
        match r {
            Ok(v) => ws_from(trees_model(args@), i as int, fuel as nat) == Ok::<
                Seq<W<PublicKey>>,
                ErrorView,
            >(v@) && forall|j: int| 0 <= j < v@.len() ==> (#[trigger] v@[j]).wf(),
            Err(e) => ws_from(trees_model(args@), i as int, fuel as nat) == Err::<
                Seq<W<PublicKey>>,
                ErrorView,
            >(e@),
        },
    decreases fuel, 1 + args.len() - i,
{
    proof {
        lemma_trees_model(args@);
    }
    let mut out: Vec<W<PublicKey>> = Vec::new();
    let mut at: usize = i;
    assert(Seq::<W<PublicKey>>::empty() + ws_from(
        trees_model(args@),
        i as int,
        fuel as nat,
    )->Ok_0 =~= ws_from(trees_model(args@), i as int, fuel as nat)->Ok_0);
    while at < args.len()
        invariant
            i <= at <= args.len(),
            forall|j: int|
                0 <= j < args@.len() ==> #[trigger] trees_model(args@)[j] == args@[j].model(),
            trees_model(args@).len() == args@.len(),
            forall|j: int| 0 <= j < out@.len() ==> (#[trigger] out@[j]).wf(),
            ws_from(trees_model(args@), i as int, fuel as nat) == glue(
                out@,
                ws_from(trees_model(args@), at as int, fuel as nat),
            ),
        decreases args.len() - at,
    {
        let x = read_w(args[at].name.as_slice(), &args[at].args, fuel)?;
        let ghost before = out@;
        out.push(x);
        proof {
            let next = ws_from(trees_model(args@), at + 1, fuel as nat);
            if next is Ok {
                assert(before + (seq![x] + next->Ok_0) =~= out@ + next->Ok_0);
            }
        }
        at += 1;
    }
    assert(out@ + Seq::<W<PublicKey>>::empty() =~= out@);
    Ok(out)
}

/// Whether `k` children can be asked of a threshold with `n` later
/// children.
fn threshold_ok(k: u32, n: usize) -> (r: bool)
    ensures
        r == (1 <= k <= 1 + n && k < 0x8000_0000),
{
    1 <= k && k < 0x8000_0000 && (k - 1) as usize <= n
}

/// Reads the number and the children of a threshold.
fn read_thresh(name: &[u8], args: &Vec<Tree>, fuel: usize) -> (r: Result<
    (u32, E<PublicKey>, List<W<PublicKey>>),
    Error,
>)
    ensures
        told(r, thresh_from(name@, trees_model(args@), fuel as nat)),
        r matches Ok((k, e, ws)) ==> threshold_wf(k, ws) && e.wf() && ws_wf(ws),
    decreases fuel, 2 + args.len(),
{
    proof {
        lemma_trees_model(args@);
    }
    if args.len() < 2 {
        return Err(type_check(name));
    }
    let k = read_number(&args[0])?;
    let e = read_e(args[1].name.as_slice(), &args[1].args, fuel)?;
    let ws = read_ws(args, 2, fuel)?;
    proof {
        List::<W<PublicKey>>::lemma_seq_of(ws@);
        lemma_ws_wf(ws@);
    }
    if threshold_ok(k, ws.len()) {
        Ok((k, e, List::from_vec(ws)))
    } else {
        Err(type_check(name))
    }
}

/// Reads the two children of a fragment, of type `E` and `W`.
fn read_ew(name: &[u8], args: &Vec<Tree>, fuel: usize) -> (r: Result<
    (E<PublicKey>, W<PublicKey>),
    Error,
>)
    ensures
        told(r, pair_ew(name@, trees_model(args@), fuel as nat)),
        r matches Ok((l, r)) ==> l.wf() && r.wf(),
    decreases fuel, 0nat,
{
    proof {
        lemma_trees_model(args@);
    }
    if args.len() != 2 {
        return Err(type_check(name));
    }
    if fuel == 0 {
        return Err(Error::ContextError(Context::Depth));
    }
    let l = read_e(args[0].name.as_slice(), &args[0].args, fuel - 1)?;
    let r = read_w(args[1].name.as_slice(), &args[1].args, fuel - 1)?;
    Ok((l, r))
}

/// Reads the two children of a fragment, of type `E` and `T`.
fn read_et(name: &[u8], args: &Vec<Tree>, fuel: usize) -> (r: Result<
    (E<PublicKey>, T<PublicKey>),
    Error,
>)
    ensures
        told(r, pair_et(name@, trees_model(args@), fuel as nat)),
        r matches Ok((l, r)) ==> l.wf() && r.wf(),
    decreases fuel, 0nat,
{
    proof {
        lemma_trees_model(args@);
    }
    if args.len() != 2 {
        return Err(type_check(name));
    }
    if fuel == 0 {
        return Err(Error::ContextError(Context::Depth));
    }
    let l = read_e(args[0].name.as_slice(), &args[0].args, fuel - 1)?;
    let r = read_t(args[1].name.as_slice(), &args[1].args, fuel - 1)?;
    Ok((l, r))
}

/// Reads the two children of a fragment, of type `E` and `V`.
fn read_ev(name: &[u8], args: &Vec<Tree>, fuel: usize) -> (r: Result<
    (E<PublicKey>, V<PublicKey>),
    Error,
>)
    ensures
        told(r, pair_ev(name@, trees_model(args@), fuel as nat)),
        r matches Ok((l, r)) ==> l.wf() && r.wf(),
    decreases fuel, 0nat,
{
    proof {
        lemma_trees_model(args@);
    }
    if args.len() != 2 {
        return Err(type_check(name));
    }
    if fuel == 0 {
        return Err(Error::ContextError(Context::Depth));
    }
    let l = read_e(args[0].name.as_slice(), &args[0].args, fuel - 1)?;
    let r = read_v(args[1].name.as_slice(), &args[1].args, fuel - 1)?;
    Ok((l, r))
}

/// Reads the two children of a fragment, of type `V` and `V`.
fn read_vv(name: &[u8], args: &Vec<Tree>, fuel: usize) -> (r: Result<
    (V<PublicKey>, V<PublicKey>),
    Error,
>)
    ensures
        told(r, pair_vv(name@, trees_model(args@), fuel as nat)),
        r matches Ok((l, r)) ==> l.wf() && r.wf(),
    decreases fuel, 0nat,
{
    proof {
        lemma_trees_model(args@);
    }
    if args.len() != 2 {
        return Err(type_check(name));
    }
    if fuel == 0 {
        return Err(Error::ContextError(Context::Depth));
    }
    let l = read_v(args[0].name.as_slice(), &args[0].args, fuel - 1)?;
    let r = read_v(args[1].name.as_slice(), &args[1].args, fuel - 1)?;
    Ok((l, r))
}

/// Reads the two children of a fragment, of type `V` and `T`.
fn read_vt(name: &[u8], args: &Vec<Tree>, fuel: usize) -> (r: Result<
    (V<PublicKey>, T<PublicKey>),
    Error,
>)
    ensures
        told(r, pair_vt(name@, trees_model(args@), fuel as nat)),
        r matches Ok((l, r)) ==> l.wf() && r.wf(),
    decreases fuel, 0nat,
{
    proof {
        lemma_trees_model(args@);
    }
    if args.len() != 2 {
        return Err(type_check(name));
    }
    if fuel == 0 {
        return Err(Error::ContextError(Context::Depth));
    }
    let l = read_v(args[0].name.as_slice(), &args[0].args, fuel - 1)?;
    let r = read_t(args[1].name.as_slice(), &args[1].args, fuel - 1)?;
    Ok((l, r))
}

/// Reads the two children of a fragment, of type `T` and `T`.
fn read_tt(name: &[u8], args: &Vec<Tree>, fuel: usize) -> (r: Result<
    (T<PublicKey>, T<PublicKey>),
    Error,
>)
    ensures
        told(r, pair_tt(name@, trees_model(args@), fuel as nat)),
        r matches Ok((l, r)) ==> l.wf() && r.wf(),
    decreases fuel, 0nat,
{
    proof {
        lemma_trees_model(args@);
    }
    if args.len() != 2 {
        return Err(type_check(name));
    }
    if fuel == 0 {
        return Err(Error::ContextError(Context::Depth));
    }
    let l = read_t(args[0].name.as_slice(), &args[0].args, fuel - 1)?;
    let r = read_t(args[1].name.as_slice(), &args[1].args, fuel - 1)?;
    Ok((l, r))
}

/// Reads the fragment `andor(E,T,0)`.
fn read_and_or(name: &[u8], args: &Vec<Tree>, fuel: usize) -> (r: Result<E<PublicKey>, Error>)
    ensures
        told(r, and_or(name@, trees_model(args@), fuel as nat)),
        r matches Ok(x) ==> x.wf(),
    decreases fuel, 0nat,
{
    proof {
        lemma_trees_model(args@);
    }
    if !(args.len() == 3 && zero_arg(&args[2])) {
        return Err(type_check(name));
    }
    if fuel == 0 {
        return Err(Error::ContextError(Context::Depth));
    }
    let l = read_e(args[0].name.as_slice(), &args[0].args, fuel - 1)?;
    let r = read_t(args[1].name.as_slice(), &args[1].args, fuel - 1)?;
    Ok(E::CascadeAnd(Box::new(l), Box::new(r)))
}

/// Reads the fragment `or_i` at the place of an `E`.
fn read_either(name: &[u8], args: &Vec<Tree>, fuel: usize) -> (r: Result<E<PublicKey>, Error>)
    ensures
        told(r, either(name@, trees_model(args@), fuel as nat)),
        r matches Ok(x) ==> x.wf(),
    decreases fuel, 0nat,
{
    proof {
        lemma_trees_model(args@);
    }
    if args.len() != 2 {
        return Err(type_check(name));
    }
    if fuel == 0 {
        return Err(Error::ContextError(Context::Depth));
    }
    match read_e(args[0].name.as_slice(), &args[0].args, fuel - 1) {
        Ok(l) => {
            let r = read_t(args[1].name.as_slice(), &args[1].args, fuel - 1)?;
            Ok(E::SwitchOrLeft(Box::new(l), Box::new(r)))
        },
        Err(_) => {
            let l = read_e(args[1].name.as_slice(), &args[1].args, fuel - 1)?;
            let r = read_t(args[0].name.as_slice(), &args[0].args, fuel - 1)?;
            Ok(E::SwitchOrRight(Box::new(l), Box::new(r)))
        },
    }
}

/// Reads a fragment of type `E` from a name with its arguments.
pub fn read_e(name: &[u8], args: &Vec<Tree>, fuel: usize) -> (r: Result<E<PublicKey>, Error>)
    ensures
        told(r, tree_e(name@, trees_model(args@), fuel as nat)),
        r matches Ok(x) ==> x.wf(),
    decreases fuel, 0nat,
{
    proof {
        lemma_trees_model(args@);
    }
    if fuel == 0 {
        return Err(Error::ContextError(Context::Depth));
    }
    check_name(name)?;
    if is_wrapped_by(name, WRAP_LIKELY) {
        return Ok(E::Likely(Box::new(read_t(unwrap_name(name), args, fuel - 1)?)));
    }
    if is_wrapped_by(name, WRAP_UNLIKELY) {
        return Ok(E::Unlikely(Box::new(read_t(unwrap_name(name), args, fuel - 1)?)));
    }
    match name_of(name) {
        Name::PkK => {
            if args.len() == 1 {
                Ok(E::CheckSig(read_key_arg(&args[0])?))
            } else {
                Err(type_check(name))
            }
        },
        Name::Multi => {
            let (k, keys) = read_multi(name, args)?;
            Ok(E::CheckMultiSig(k, keys))
        },
        Name::Delay => {
            if args.len() == 1 {
                Ok(E::Time(read_time(&args[0])?))
            } else {
                Err(type_check(name))
            }
        },
        Name::Thresh => {
            let (k, e, ws) = read_thresh(name, args, fuel - 1)?;
            Ok(E::Threshold(k, Box::new(e), ws))
        },
        Name::AndB => {
            let (l, r) = read_ew(name, args, fuel - 1)?;
            Ok(E::ParallelAnd(Box::new(l), Box::new(r)))
        },
        Name::AndOr => read_and_or(name, args, fuel - 1),
        Name::OrB => {
            let (l, r) = read_ew(name, args, fuel - 1)?;
            Ok(E::ParallelOr(Box::new(l), Box::new(r)))
        },
        Name::OrD => {
            let (l, r) = read_et(name, args, fuel - 1)?;
            Ok(E::CascadeOr(Box::new(l), Box::new(r)))
        },
        Name::OrI => read_either(name, args, fuel - 1),
        _ => Err(misplaced_name(name)),
    }
}

/// Reads a fragment of type `W` from a name with its arguments.
pub fn read_w(name: &[u8], args: &Vec<Tree>, fuel: usize) -> (r: Result<W<PublicKey>, Error>)
    ensures
        told(r, tree_w(name@, trees_model(args@), fuel as nat)),
        r matches Ok(x) ==> x.wf(),
    decreases fuel, 0nat,
{
    proof {
        lemma_trees_model(args@);
    }
    if fuel == 0 {
        return Err(Error::ContextError(Context::Depth));
    }
    check_name(name)?;
    if is_wrapped_by(name, WRAP_ALT) {
        return Ok(W::CastE(Box::new(read_e(unwrap_name(name), args, fuel - 1)?)));
    }
    match name_of(name) {
        Name::SwapPkK => {
            if args.len() == 1 {
                Ok(W::CheckSig(read_key_arg(&args[0])?))
            } else {
                Err(type_check(name))
            }
        },
        Name::SwapHash => {
            if args.len() == 1 {
                Ok(W::HashEqual(read_hash_arg(&args[0])?))
            } else {
                Err(type_check(name))
            }
        },
        Name::SwapDelay => {
            if args.len() == 1 {
                Ok(W::Time(read_time(&args[0])?))
            } else {
                Err(type_check(name))
            }
        },
        _ => Err(misplaced_name(name)),
    }
}

/// Reads a fragment of type `V` from a name with its arguments.
pub fn read_v(name: &[u8], args: &Vec<Tree>, fuel: usize) -> (r: Result<V<PublicKey>, Error>)
    ensures
        told(r, tree_v(name@, trees_model(args@), fuel as nat)),
        r matches Ok(x) ==> x.wf(),
    decreases fuel, 0nat,
{
    proof {
        lemma_trees_model(args@);
    }
    if fuel == 0 {
        return Err(Error::ContextError(Context::Depth));
    }
    check_name(name)?;
    match name_of(name) {
        Name::VerifyPkK => {
            if args.len() == 1 {
                Ok(V::CheckSig(read_key_arg(&args[0])?))
            } else {
                Err(type_check(name))
            }
        },
        Name::VerifyMulti => {
            let (k, keys) = read_multi(name, args)?;
            Ok(V::CheckMultiSig(k, keys))
        },
        Name::VerifyOlder => {
            if args.len() == 1 {
                Ok(V::Time(read_time(&args[0])?))
            } else {
                Err(type_check(name))
            }
        },
        Name::VerifyHash => {
            if args.len() == 1 {
                Ok(V::HashEqual(read_hash_arg(&args[0])?))
            } else {
                Err(type_check(name))
            }
        },
        Name::AndV => {
            let (l, r) = read_vv(name, args, fuel - 1)?;
            Ok(V::And(Box::new(l), Box::new(r)))
        },
        Name::OrI => {
            let (l, r) = read_vv(name, args, fuel - 1)?;
            Ok(V::SwitchOr(Box::new(l), Box::new(r)))
        },
        Name::VerifyOrI => {
            let (l, r) = read_tt(name, args, fuel - 1)?;
            Ok(V::SwitchOrT(Box::new(l), Box::new(r)))
        },
        Name::OrC => {
            let (l, r) = read_ev(name, args, fuel - 1)?;
            Ok(V::CascadeOr(Box::new(l), Box::new(r)))
        },
        Name::VerifyThresh => {
            let (k, e, ws) = read_thresh(name, args, fuel - 1)?;
            Ok(V::Threshold(k, Box::new(e), ws))
        },
        _ => Err(misplaced_name(name)),
    }
}

/// Reads a fragment of type `T` from a name with its arguments.
pub fn read_t(name: &[u8], args: &Vec<Tree>, fuel: usize) -> (r: Result<T<PublicKey>, Error>)
    ensures
        told(r, tree_t(name@, trees_model(args@), fuel as nat)),
        r matches Ok(x) ==> x.wf(),
    decreases fuel, 1nat,
{
    proof {
        lemma_trees_model(args@);
    }
    if fuel == 0 {
        return Err(Error::ContextError(Context::Depth));
    }
    check_name(name)?;
    match name_of(name) {
        Name::Older => {
            if args.len() == 1 {
                Ok(T::Time(read_time(&args[0])?))
            } else {
                Err(type_check(name))
            }
        },
        Name::After => {
            if args.len() == 1 {
                Ok(T::After(read_time(&args[0])?))
            } else {
                Err(type_check(name))
            }
        },
        Name::Hash256 => {
            if args.len() == 1 {
                Ok(T::HashEqual(read_hash_arg(&args[0])?))
            } else {
                Err(type_check(name))
            }
        },
        Name::AndV => {
            let (l, r) = read_vt(name, args, fuel - 1)?;
            Ok(T::And(Box::new(l), Box::new(r)))
        },
        Name::OrB => {
            let (l, r) = read_ew(name, args, fuel - 1)?;
            Ok(T::ParallelOr(Box::new(l), Box::new(r)))
        },
        Name::OrD => {
            let (l, r) = read_et(name, args, fuel - 1)?;
            Ok(T::CascadeOr(Box::new(l), Box::new(r)))
        },
        Name::OrI => {
            let (l, r) = read_tt(name, args, fuel - 1)?;
            Ok(T::SwitchOr(Box::new(l), Box::new(r)))
        },
        Name::TrueOrI => {
            let (l, r) = read_vv(name, args, fuel - 1)?;
            Ok(T::SwitchOrV(Box::new(l), Box::new(r)))
        },
        _ => Ok(T::CastE(Box::new(read_e(name, args, fuel)?))),
    }
}

} // verus!
