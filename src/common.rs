use vstd::prelude::*;

use vstd::string::StringExecFns;

use crate::error::{error_message, VortoError, VortoErrorCode, VortoResult};

verus! {

/// Fails with `vorto_error` when `is_failed` reports failure.
pub fn validate_fn(is_failed: impl Fn() -> bool, vorto_error: VortoError) -> (r: VortoResult<()>)
    requires
        is_failed.requires(()),
    ensures
        match r {
            VortoResult::Failure(e) => e == vorto_error && is_failed.ensures((), true),
            VortoResult::Success(_) => is_failed.ensures((), false),
        },
{
    if is_failed() {
        VortoResult::Failure(vorto_error)
    } else {
        VortoResult::Success(())
    }
}

pub open spec fn digit_char(d: int) -> char {
    seq!['0', '1', '2', '3', '4', '5', '6', '7', '8', '9'][d]
}

/// The decimal digits of `n`, without leading zeros.
pub open spec fn digits_text(n: nat) -> Seq<char>
    decreases n,
{
    if n < 10 {
        seq![digit_char(n as int)]
    } else {
        digits_text(n / 10) + seq![digit_char((n % 10) as int)]
    }
}

/// `n` written in decimal, with a leading `-` when it is negative.
pub open spec fn decimal_text(n: int) -> Seq<char> {
    if n < 0 {
        seq!['-'] + digits_text((-n) as nat)
    } else {
        digits_text(n as nat)
    }
}

/// Relies on std's `Display` for `i32`, through `to_string`: the value in
/// decimal, with a leading `-` when it is negative.
#[verifier::external_body]
pub(crate) fn int_text(n: i32) -> (r: String)
    ensures
        r@ == decimal_text(n as int),
{
    n.to_string()
}

/// The values of the successes among `s`, in order.
pub open spec fn successes<T>(s: Seq<VortoResult<T>>) -> Seq<T>
    decreases s.len(),
{
    if s.len() == 0 {
        Seq::empty()
    } else {
        match s.last() {
            VortoResult::Success(v) => successes(s.drop_last()).push(v),
            VortoResult::Failure(_) => successes(s.drop_last()),
        }
    }
}

/// The errors among `s`, in order.
pub open spec fn failures<T>(s: Seq<VortoResult<T>>) -> Seq<VortoError>
    decreases s.len(),
{
    if s.len() == 0 {
        Seq::empty()
    } else {
        match s.last() {
            VortoResult::Success(_) => failures(s.drop_last()),
            VortoResult::Failure(e) => failures(s.drop_last()).push(e),
        }
    }
}

/// One error, as listed in a combined message.
pub open spec fn error_entry(e: VortoError) -> Seq<char> {
    "code: "@ + decimal_text(e.code as int) + " message: "@ + e.message@
}

/// The entries of `errs`, separated by `, `.
pub open spec fn joined_errors(errs: Seq<VortoError>) -> Seq<char>
    decreases errs.len(),
{
    if errs.len() == 0 {
        Seq::empty()
    } else if errs.len() == 1 {
        error_entry(errs[0])
    } else {
        joined_errors(errs.drop_last()) + ", "@ + error_entry(errs.last())
    }
}

/// All the values when every result succeeded; otherwise one validation
/// error that lists every failure.
pub fn reduce_results<T>(results: Vec<VortoResult<T>>) -> (r: VortoResult<Vec<T>>)
    ensures
        r is Success <==> failures(results@).len() == 0,
        r is Success ==> r->Success_0@ == successes(results@),
        r is Failure ==> {
            &&& r->Failure_0.has_code(VortoErrorCode::Validation)
            &&& r->Failure_0.message@ == error_message(
                VortoErrorCode::Validation,
                joined_errors(failures(results@)),
            )
        },
{
    let ghost s = results@;
    let n = results.len();
    let mut rest = results;
    let mut oks: Vec<T> = Vec::new();
    let mut message = String::new();
    let mut n_errors: usize = 0;
    proof {
        assert(s.take(0) =~= Seq::<VortoResult<T>>::empty());
        assert(oks@ =~= successes(s.take(0)));
    }
    for i in 0..n
        invariant
            n == s.len(),
            rest@ == s.skip(i as int),
            oks@ == successes(s.take(i as int)),
            message@ == joined_errors(failures(s.take(i as int))),
            n_errors == failures(s.take(i as int)).len(),
            n_errors <= i,
    {
        let item = rest.remove(0);
        proof {
            assert(rest@ =~= s.skip(i + 1));
            assert(s.take(i + 1).drop_last() =~= s.take(i as int));
            assert(item == s[i as int]);
        }
        match item {
            VortoResult::Success(v) => {
                oks.push(v);
            },
            VortoResult::Failure(e) => {
                if n_errors > 0 {
                    message.append(", ");
                }
                message.append("code: ");
                let code = int_text(e.code);
                message.append(code.as_str());
                message.append(" message: ");
                message.append(e.message.as_str());
                n_errors = n_errors + 1;
                proof {
                    let before = failures(s.take(i as int));
                    let after = failures(s.take(i + 1));
                    assert(after == before.push(e));
                    assert(after.drop_last() =~= before);
                    if before.len() == 0 {
                        assert(message@ =~= error_entry(e));
                    } else {
                        assert(message@ =~= joined_errors(before) + ", "@ + error_entry(e));
                    }
                }
            },
        }
    }
    proof {
        assert(s.take(n as int) =~= s);
    }
    if n_errors == 0 {
        VortoResult::Success(oks)
    } else {
        VortoResult::Failure(VortoError::new(VortoErrorCode::Validation, message))
    }
}

// ----- text -----

/// `s` with every match of `from` replaced by `to`, matches taken from the
/// left without overlap.
pub open spec fn replace_all(s: Seq<char>, from: Seq<char>, to: Seq<char>) -> Seq<char>
    recommends
        from.len() > 0,
    decreases s.len(),
{
    if from.len() == 0 || s.len() < from.len() {
        s
    } else if s.take(from.len() as int) == from {
        to + replace_all(s.skip(from.len() as int), from, to)
    } else {
        seq![s[0]] + replace_all(s.drop_first(), from, to)
    }
}

/// Relies on std's `str::replace`: every match of `from`, taken from the left
/// without overlap, is replaced by `to`.
#[verifier::external_body]
pub(crate) fn replace_text(s: &str, from: &str, to: &str) -> (r: String)
    requires
        from@.len() > 0,
    ensures
        r@ == replace_all(s@, from@, to@),
{
    s.replace(from, to)
}

/// Relies on std's `Display` for `i64`, through `to_string`: the value in
/// decimal, with a leading `-` when it is negative.
#[verifier::external_body]
pub(crate) fn long_text(n: i64) -> (r: String)
    ensures
        r@ == decimal_text(n as int),
{
    n.to_string()
}

/// `items` separated by `sep`.
pub open spec fn joined(items: Seq<Seq<char>>, sep: Seq<char>) -> Seq<char>
    decreases items.len(),
{
    if items.len() == 0 {
        Seq::empty()
    } else if items.len() == 1 {
        items[0]
    } else {
        joined(items.drop_last(), sep) + sep + items.last()
    }
}

} // verus!
