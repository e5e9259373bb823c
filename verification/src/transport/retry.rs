//! When a request is tried again.

use vstd::arithmetic::power2::*;
use vstd::prelude::*;

use crate::error;
use crate::error::{WinrmError, WinrmErrorView};

verus! {

/// Milliseconds before the first retry.
pub const FIRST_DELAY_MS: u64 = 100;

/// The last attempt after which the delay can be expressed.
pub const LAST_DELAYED_ATTEMPT: u32 = 57;

/// What to do after an attempt.
#[derive(Debug)]
pub enum Retry {
    /// Wait for so many milliseconds, then try again.
    After(u64),
    /// Return.
    Return(Result<String, WinrmError>),
}

/// What a [`Retry`] holds.
pub enum RetryView {
    After(int),
    Return(Result<Seq<char>, WinrmErrorView>),
}

impl View for Retry {
    type V = RetryView;

    open spec fn view(&self) -> RetryView {
        match self {
            Retry::After(ms) => RetryView::After(*ms as int),
            Retry::Return(r) => RetryView::Return(error::text_result(*r)),
        }
    }
}

/// Milliseconds to wait after an attempt. Attempts count from zero.
pub open spec fn delay_ms(attempt: nat) -> nat
    decreases attempt,
{
    if attempt == 0 {
        FIRST_DELAY_MS as nat
    } else {
        2 * delay_ms((attempt - 1) as nat)
    }
}

/// What to do after an attempt. Only transport errors are tried again, and only as often as the
/// configuration allows.
pub open spec fn retry(
    attempt: u32,
    max_retries: u32,
    result: Result<Seq<char>, WinrmErrorView>,
) -> RetryView {
    match result {
        Err(WinrmErrorView::Http(_)) => if attempt < max_retries {
            RetryView::After(delay_ms(attempt as nat) as int)
        } else {
            RetryView::Return(result)
        },
        _ => RetryView::Return(result),
    }
}

/// The delay is the first one doubled once per attempt.
proof fn lemma_delay(attempt: nat)
    ensures
        delay_ms(attempt) == FIRST_DELAY_MS * pow2(attempt),
    decreases attempt,
{
    if attempt == 0 {
        lemma2_to64();
    } else {
        lemma_delay((attempt - 1) as nat);
        lemma_pow2_unfold(attempt);
    }
}

/// The delay is the first one doubled once per attempt.
fn delay(attempt: u32) -> (r: u64)
    requires
        attempt <= LAST_DELAYED_ATTEMPT,
    ensures
        r == delay_ms(attempt as nat),
{
    let mut ms: u64 = FIRST_DELAY_MS;
    let mut i: u32 = 0;
    while i < attempt
        invariant
            i <= attempt <= LAST_DELAYED_ATTEMPT,
            ms == delay_ms(i as nat),
        decreases attempt - i,
    {
        proof {
            lemma_delay((i + 1) as nat);
            lemma2_to64_rest();
            if i + 1 < LAST_DELAYED_ATTEMPT {
                lemma_pow2_strictly_increases((i + 1) as nat, LAST_DELAYED_ATTEMPT as nat);
            }
        }
        ms = ms * 2;
        i += 1;
    }
    ms
}

/// Decides what to do after an attempt. Attempts count from zero.
pub fn after_attempt(
    attempt: u32,
    max_retries: u32,
    result: Result<String, WinrmError>,
) -> (r: Retry)
    requires
        result is Err && result->Err_0 is Http && attempt < max_retries ==> attempt
            <= LAST_DELAYED_ATTEMPT,
    ensures
        r@ == retry(attempt, max_retries, error::text_result(result)),
{
    match result {
        Err(WinrmError::Http(message)) => {
            if attempt < max_retries {
                Retry::After(delay(attempt))
            } else {
                Retry::Return(Err(WinrmError::Http(message)))
            }
        },
        result => Retry::Return(result),
    }
}

/// What a request comes to, given what each of its attempts would come to.
pub open spec fn final_result(
    results: Seq<Result<Seq<char>, WinrmErrorView>>,
    attempt: u32,
    max_retries: u32,
) -> Result<Seq<char>, WinrmErrorView>
    decreases max_retries - attempt,
{
    match retry(attempt, max_retries, results[attempt as int]) {
        RetryView::Return(result) => result,
        RetryView::After(_) => if attempt < max_retries {
            final_result(results, (attempt + 1) as u32, max_retries)
        } else {
            results[attempt as int]
        },
    }
}

/// Each delay is twice the one before, from a tenth of a second on.
pub proof fn law_delay_doubles(attempt: nat)
    ensures
        delay_ms(0) == 100,
        delay_ms(attempt + 1) == 2 * delay_ms(attempt),
        delay_ms(attempt) == 100 * pow2(attempt),
{
    lemma_delay(attempt);
}

/// No attempt follows the last one that is allowed, nor one that ended in anything but a
/// transport error.
pub proof fn law_only_transport_errors_are_retried(
    attempt: u32,
    max_retries: u32,
    result: Result<Seq<char>, WinrmErrorView>,
)
    ensures
        retry(attempt, max_retries, result) is After <==> (result matches Err(
            WinrmErrorView::Http(_),
        )) && attempt < max_retries,
        retry(attempt, max_retries, result) matches RetryView::Return(r) ==> r == result,
{
}

/// The result of a request is that of its first attempt that ended in anything but a transport
/// error.
pub proof fn law_first_settled_attempt_decides(
    results: Seq<Result<Seq<char>, WinrmErrorView>>,
    from: u32,
    max_retries: u32,
    n: u32,
)
    requires
        from <= n <= max_retries,
        forall|i: int|
            from <= i < n ==> (#[trigger] results[i] matches Err(WinrmErrorView::Http(_))),
        n == max_retries || !(results[n as int] matches Err(WinrmErrorView::Http(_))),
    ensures
        final_result(results, from, max_retries) == results[n as int],
    decreases n - from,
{
    if from < n {
        assert(results[from as int] matches Err(WinrmErrorView::Http(_)));
        law_first_settled_attempt_decides(results, (from + 1) as u32, max_retries, n);
    }
}

} // verus!
