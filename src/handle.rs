use vstd::prelude::*;

verus! {

/// The largest value of a handle: handles are non-negative `c_int`s.
pub const MAX_HANDLE: i32 = 2147483647;

pub open spec fn is_digit(b: u8) -> bool {
    48 <= b <= 57
}

/// The number that the decimal digits `s` write.
pub open spec fn decimal_value(s: Seq<u8>) -> int
    decreases s.len(),
{
    if s.len() == 0 {
        0
    } else {
        decimal_value(s.drop_last()) * 10 + (s.last() - 48)
    }
}

/// The text of a valid handle: one or more decimal digits for a value that
/// fits a `c_int`.
pub open spec fn is_handle_text(s: Seq<u8>) -> bool {
    &&& s.len() > 0
    &&& forall|i: int| 0 <= i < s.len() ==> is_digit(#[trigger] s[i])
    &&& decimal_value(s) <= MAX_HANDLE
}

#[derive(Debug, Clone, Copy, PartialEq, Eq, Structural)]
pub enum HandleError {
    /// The value does not name a handle.
    InvalidHandle,
}

/// A handle to the channel that the driver opened. It cannot be copied or
/// cloned, and adopting the channel consumes it, so the channel is adopted
/// at most once from each parsed value.
#[derive(Debug)]
pub struct Handle {
    raw: i32,
}

impl Handle {
    #[verifier::type_invariant]
    spec fn non_negative(&self) -> bool {
        self.raw >= 0
    }

    pub closed spec fn value(&self) -> int {
        self.raw as int
    }

    /// Gives up the handle for its raw value, to take ownership of the
    /// channel.
    pub fn into_raw(self) -> (r: i32)
        ensures
            r == self.value(),
            r >= 0,
    {
        proof {
            use_type_invariant(&self);
        }
        self.raw
    }
}

proof fn lemma_value_grows(s: Seq<u8>)
    requires
        forall|i: int| 0 <= i < s.len() ==> is_digit(#[trigger] s[i]),
    ensures
        0 <= decimal_value(s),
        forall|k: int| 0 <= k <= s.len() ==> decimal_value(#[trigger] s.subrange(0, k)) <= decimal_value(s),
    decreases s.len(),
{
    if s.len() > 0 {
        let t = s.drop_last();
        lemma_value_grows(t);
        assert forall|k: int| 0 <= k <= s.len() implies decimal_value(#[trigger] s.subrange(0, k))
            <= decimal_value(s) by {
            if k == s.len() {
                assert(s.subrange(0, k) =~= s);
            } else {
                assert(t.subrange(0, k) =~= s.subrange(0, k));
            }
        }
    }
}

/// Reads the value of a handle from its decimal text.
pub fn parse_handle(text: &[u8]) -> (r: Result<Handle, HandleError>)
    ensures
        match r {
            Ok(h) => is_handle_text(text@) && h.value() == decimal_value(text@),
            Err(e) => !is_handle_text(text@) && e == HandleError::InvalidHandle,
        },
{
    let n = text.len();
    if n == 0 {
        return Err(HandleError::InvalidHandle);
    }
    let mut i: usize = 0;
    while i < n
        invariant
            n == text@.len(),
            i <= n,
            forall|j: int| 0 <= j < i ==> is_digit(#[trigger] text@[j]),
        decreases n - i,
    {
        if !(48 <= text[i] && text[i] <= 57) {
            return Err(HandleError::InvalidHandle);
        }
        i = i + 1;
    }
    proof {
        lemma_value_grows(text@);
    }
    let mut v: i64 = 0;
    i = 0;
    while i < n
        invariant
            n == text@.len(),
            i <= n,
            forall|j: int| 0 <= j < n ==> is_digit(#[trigger] text@[j]),
            0 <= v <= MAX_HANDLE,
            v == decimal_value(text@.subrange(0, i as int)),
            forall|k: int| 0 <= k <= n ==> decimal_value(#[trigger] text@.subrange(0, k))
                <= decimal_value(text@),
        decreases n - i,
    {
        let ghost prev = text@.subrange(0, i as int);
        assert(text@.subrange(0, i + 1).drop_last() =~= prev);
        v = v * 10 + (text[i] - 48) as i64;
        i = i + 1;
        if v > MAX_HANDLE as i64 {
            return Err(HandleError::InvalidHandle);
        }
    }
    assert(text@.subrange(0, n as int) =~= text@);
    Ok(Handle { raw: v as i32 })
}

} // verus!
