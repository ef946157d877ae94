//! The trust boundary with the matching engine.
//!
//! Everything the engine computes — compiling a pattern, running it, its
//! name table — comes through the wrappers here, whose contracts Verus
//! believes. Each states no more than the engine's documentation promises;
//! the logic that interprets what comes back lives elsewhere and is verified.

use vstd::prelude::*;
use vstd::string::StringSliceAdditionalSpecFns;

verus! {

#[verifier::external_type_specification]
#[verifier::external_body]
pub struct ExRegex(pcre2::bytes::Regex);

/// What the engine's compiler decides for a pattern, a function of the
/// pattern text alone (the engine compiles with fixed default options):
/// `None` when it accepts the pattern, else the error message and the byte
/// offset into the pattern that it reports (zero when it reports none).
pub uninterp spec fn compile_report(pattern: Seq<char>) -> Option<(Seq<char>, usize)>;

/// Relies on pcre2::bytes::Regex::new: the engine's compiled form of the
/// pattern on success; on failure, the engine's error message and the byte
/// offset into the pattern that it reports (zero when it reports none).
#[verifier::external_body]
pub(crate) fn engine_compile(pattern: &str) -> (r: Result<pcre2::bytes::Regex, (String, usize)>)
    ensures
        r is Ok <==> compile_report(pattern@) is None,
        r matches Err(t) ==> (compile_report(pattern@) matches Some(rep) && t.0@ == rep.0 && t.1
            == rep.1),
{
    match pcre2::bytes::Regex::new(pattern) {
        Ok(re) => Ok(re),
        Err(e) => {
            let offset = e.offset().unwrap_or(0);
            Err((e.to_string(), offset))
        },
    }
}

/// Relies on pcre2::bytes::Regex::captures: one optional pair of byte
/// offsets into the subject per capture slot, slot 0 being the whole match,
/// which is always set when a match is found. A slot whose group did not
/// participate is None. An engine-internal matching error is reported as no
/// match, as the engine's negative return codes are.
#[verifier::external_body]
pub(crate) fn engine_exec(re: &pcre2::bytes::Regex, subject: &str) -> (r: Option<
    Vec<Option<(usize, usize)>>,
>)
    ensures
        r matches Some(v) ==> v@.len() >= 1 && v@[0] is Some,
        r matches Some(v) ==> forall|i: int|
            0 <= i < v@.len() ==> ((#[trigger] v@[i]) matches Some(p) ==> p.0
                <= subject.spec_bytes().len() && p.1 <= subject.spec_bytes().len()),
{
    match re.captures(subject.as_bytes()) {
        Ok(Some(caps)) => Some(
            (0..caps.len()).map(|i| caps.get(i).map(|m| (m.start(), m.end()))).collect(),
        ),
        _ => None,
    }
}

/// Relies on pcre2::bytes::Regex::capture_names: one entry per capturing
/// group, indexed by group number; entry 0 stands for the whole match and is
/// always unnamed.
#[verifier::external_body]
pub(crate) fn engine_group_names(re: &pcre2::bytes::Regex) -> (r: Vec<Option<String>>)
    ensures
        r@.len() >= 1,
        r@[0] is None,
{
    re.capture_names().to_vec()
}

} // verus!
