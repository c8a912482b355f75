//! Normalised instance states and the mapping from provider vocabularies.
use vstd::prelude::*;

verus! {

/// The state of an instance, normalised over every provider.
///
/// `Terminated` is absorbing; `Active` and `Inactive` are toggled by starting
/// and stopping an instance.
#[derive(Debug, Clone, Copy, PartialEq, Eq, Structural, Hash)]
pub enum InstanceStatus {
    Active,
    Inactive,
    Terminated,
}

/// What `str::to_lowercase` returns for the characters `s`.
pub uninterp spec fn lower_of(s: Seq<char>) -> Seq<char>;

/// Relies on `str::to_lowercase`: the lower-case form of `s`, which depends on
/// its characters alone.
#[verifier::external_body]
fn lowercase(s: &str) -> (r: String)
    ensures
        r@ == lower_of(s@),
{
    s.to_lowercase()
}

/// The status that an already lower-cased provider string stands for.
pub open spec fn status_of_lowered(s: Seq<char>) -> InstanceStatus {
    if s == "running"@ {
        InstanceStatus::Active
    } else if s == "terminated"@ {
        InstanceStatus::Terminated
    } else {
        InstanceStatus::Inactive
    }
}

/// The status that a raw provider string stands for, compared without case.
pub open spec fn status_of(raw: Seq<char>) -> InstanceStatus {
    status_of_lowered(lower_of(raw))
}

/// Whether the characters of `s` are exactly those of `word`.
fn same_chars(s: &str, word: &str) -> (r: bool)
    ensures
        r == (s@ == word@),
{
    let n = s.unicode_len();
    if n != word.unicode_len() {
        return false;
    }
    let mut i: usize = 0;
    while i < n
        invariant
            n == s@.len(),
            n == word@.len(),
            i <= n,
            forall|k: int| 0 <= k < i ==> s@[k] == word@[k],
        decreases n - i,
    {
        if s.get_char(i) != word.get_char(i) {
            return false;
        }
        i = i + 1;
    }
    assert(s@ =~= word@);
    true
}

/// Maps a provider status string that is already in lower case.
///
/// `"running"` is `Active`, `"terminated"` is `Terminated`, and every other
/// string is `Inactive`.
pub fn classify_lowered(s: &str) -> (r: InstanceStatus)
    ensures
        r == status_of_lowered(s@),
{
    if same_chars(s, "running") {
        InstanceStatus::Active
    } else if same_chars(s, "terminated") {
        InstanceStatus::Terminated
    } else {
        InstanceStatus::Inactive
    }
}

/// Maps any provider status string to a normalised status, ignoring case.
///
/// Unknown strings, the empty string and transient states map to `Inactive`,
/// never to `Active` or `Terminated`.
pub fn classify(raw: &str) -> (r: InstanceStatus)
    ensures
        r == status_of(raw@),
{
    let lowered = lowercase(raw);
    classify_lowered(lowered.as_str())
}

impl From<&str> for InstanceStatus {
    fn from(s: &str) -> (r: InstanceStatus) {
        classify(s)
    }
}

impl vstd::std_specs::convert::FromSpecImpl<&str> for InstanceStatus {
    open spec fn obeys_from_spec() -> bool {
        true
    }

    open spec fn from_spec(s: &str) -> InstanceStatus {
        status_of(s@)
    }
}

} // verus!
