//! Pattern lifecycle and match results.
//!
//! [`CompiledPattern`] owns the engine's compiled form of one pattern; it is
//! created only by a successful [`CompiledPattern::compile`], and the
//! engine's resource is released exactly once, when the owning scope drops
//! it. [`MatchResult`] is what one match attempt yields: "no match", or the
//! ordered sequence of captured substrings, readable by position or by
//! group name through a non-owning reference back to the pattern.

use vstd::prelude::*;
use vstd::string::StringSliceAdditionalSpecFns;
use vstd::utf8::encode_utf8_decode_utf8;

use crate::buffer::OffsetBuffer;
use crate::buffer::USABLE_PAIRS;
use crate::buffer::all_spans_sliceable;
use crate::buffer::capture_spans;
use crate::buffer::groups_match_spans;
use crate::buffer::groups_nonempty;
use crate::buffer::lemma_spans_count_participating;
use crate::buffer::slots_of;
use crate::engine;
use crate::errors::Error;

verus! {

/// Byte-for-byte string equality, which decides equality of the character
/// sequences, UTF-8 encoding being injective.
pub fn str_eq(a: &str, b: &str) -> (r: bool)
    ensures
        r == (a@ == b@),
{
    let ab = a.as_bytes();
    let bb = b.as_bytes();
    if ab.len() != bb.len() {
        proof {
            if a@ == b@ {
                assert(a.spec_bytes() == b.spec_bytes());
            }
        }
        return false;
    }
    let mut i: usize = 0;
    while i < ab.len()
        invariant
            ab@ == a.spec_bytes(),
            bb@ == b.spec_bytes(),
            ab@.len() == bb@.len(),
            i <= ab@.len(),
            forall|j: int| 0 <= j < i ==> ab@[j] == bb@[j],
        decreases ab@.len() - i,
    {
        let x = *vstd::slice::slice_index_get(ab, i);
        let y = *vstd::slice::slice_index_get(bb, i);
        if x != y {
            proof {
                if a@ == b@ {
                    assert(a.spec_bytes() == b.spec_bytes());
                }
            }
            return false;
        }
        i = i + 1;
    }
    proof {
        assert(ab@ =~= bb@);
        encode_utf8_decode_utf8(a@);
        encode_utf8_decode_utf8(b@);
    }
    true
}

/// The result of looking a group name up in the engine's name table from
/// entry `i` on: the first entry from there that carries the name, as a
/// group number.
pub open spec fn name_index_from(names: Seq<Option<String>>, name: Seq<char>, i: int) -> Option<
    int,
>
    decreases names.len() - i,
{
    if i < 0 || i >= names.len() {
        None
    } else if names[i] matches Some(s) && s@ == name {
        Some(i)
    } else {
        name_index_from(names, name, i + 1)
    }
}

/// The 1-based group number of the named group: the first entry of the
/// engine's name table, from group 1 on, that carries the name. Entry 0 is
/// the whole match and never named.
pub open spec fn name_index(names: Seq<Option<String>>, name: Seq<char>) -> Option<int> {
    name_index_from(names, name, 1)
}

/// Resolve a group name to its 1-based group number in the given name
/// table, group numbers being table positions; `None` when no group of
/// that name exists.
pub fn resolve_name(names: &Vec<Option<String>>, name: &str) -> (r: Option<usize>)
    ensures
        match r {
            Some(i) => name_index(names@, name@) == Some(i as int) && 1 <= i < names@.len(),
            None => name_index(names@, name@) is None,
        },
{
    let mut i: usize = 1;
    while i < names.len()
        invariant
            1 <= i,
            name_index(names@, name@) == name_index_from(names@, name@, i as int),
        decreases names@.len() - i,
    {
        match &names[i] {
            Some(n) => {
                if str_eq(n.as_str(), name) {
                    return Some(i);
                }
            },
            None => {},
        }
        i = i + 1;
    }
    None
}

/// The name table entry that a lookup returns lies within the table, at or
/// past the entry the lookup started from.
proof fn lemma_name_index_from_bounds(names: Seq<Option<String>>, name: Seq<char>, lo: int)
    ensures
        name_index_from(names, name, lo) matches Some(i) ==> lo <= i < names.len(),
    decreases names.len() - lo,
{
    if lo < 0 || lo >= names.len() {
    } else if names[lo] matches Some(s) && s@ == name {
    } else {
        lemma_name_index_from_bounds(names, name, lo + 1);
    }
}

/// Every string is an owned copy of a whole-character byte span of the
/// subject — the spans ordered, in bounds, and on character boundaries —
/// and none is an empty placeholder.
pub open spec fn groups_are_slices_of(groups: Seq<String>, spans: Seq<(int, int)>, sb: Seq<u8>) -> bool {
    &&& all_spans_sliceable(spans, sb)
    &&& groups_match_spans(groups, spans, sb)
    &&& groups_nonempty(groups)
}

/// An owned, compiled pattern: the sole holder of one engine handle,
/// released exactly once when this value is dropped. There is no other way
/// to a live handle than a successful `compile`, and a failed `compile`
/// never retains one.
pub struct CompiledPattern {
    re: pcre2::bytes::Regex,
}

/// What one match attempt yielded: "no match", or the ordered sequence of
/// substrings captured by the participating groups, plus a non-owning
/// reference back to the originating pattern for named-group lookup.
pub struct MatchResult<'p> {
    groups: Option<Vec<String>>,
    pattern: &'p CompiledPattern,
}

impl CompiledPattern {
    /// Compile the pattern with the engine's default options. The engine's
    /// accept/reject decision is a function of the pattern text alone; a
    /// rejected pattern is a permanent failure: the engine's message and the
    /// byte offset it points at come back, and no engine resource is
    /// retained.
    pub fn compile(pattern: &str) -> (r: Result<CompiledPattern, Error>)
        ensures
            r is Ok <==> engine::compile_report(pattern@) is None,
            r matches Err(e) ==> (e matches Error::CompileError { message, offset }
                && engine::compile_report(pattern@) matches Some(rep) && message@ == rep.0
                && offset == rep.1),
    {
        match engine::engine_compile(pattern) {
            Ok(re) => Ok(CompiledPattern { re }),
            Err(t) => {
                let (message, offset) = t;
                Err(Error::CompileError { message, offset })
            },
        }
    }

    /// Run the compiled pattern against a subject. The engine's report is
    /// handed whole to [`MatchResult::from_report`], whose contract fixes
    /// the outcome for every reported value: a subject the pattern does not
    /// match yields an unmatched result, not an error; the error case
    /// arises exactly when the engine reports a match through offsets that
    /// do not fit the subject. Every extracted substring is an owned copy
    /// of a whole-character slice of the subject, none is empty, and a
    /// match holds fewer than `USABLE_PAIRS` of them.
    pub fn match_subject<'p>(&'p self, subject: &str) -> (r: Result<MatchResult<'p>, Error>)
        requires
            subject.spec_bytes().len() <= i32::MAX,
        ensures
            r matches Ok(m) ==> m.origin() == *self,
            r matches Ok(m) ==> (m.is_match() ==> exists|spans: Seq<(int, int)>|
                groups_are_slices_of(m.groups_seq(), spans, subject.spec_bytes())),
            r matches Ok(m) ==> (m.is_match() ==> m.groups_seq().len() < USABLE_PAIRS),
            r matches Err(e) ==> e == Error::ExtractionError,
    {
        let report = engine::engine_exec(&self.re, subject);
        let ghost rep = report;
        let r = MatchResult::from_report(self, report, subject);
        proof {
            if rep is Some && r is Ok {
                let pairs = rep->Some_0;
                let m = r->Ok_0;
                let spans = capture_spans(slots_of(pairs@), 1, USABLE_PAIRS as int);
                if all_spans_sliceable(spans, subject.spec_bytes()) {
                    assert(groups_are_slices_of(m.groups_seq(), spans, subject.spec_bytes()));
                }
            }
        }
        r
    }
}

impl<'p> MatchResult<'p> {
    /// Whether this result holds a successful match.
    pub closed spec fn is_match(self) -> bool {
        self.groups is Some
    }

    /// The extracted substrings, in ascending group order.
    pub closed spec fn groups_seq(self) -> Seq<String> {
        self.groups->Some_0@
    }

    /// The pattern this result came from.
    pub closed spec fn origin(self) -> CompiledPattern {
        *self.pattern
    }

    /// Interpret everything one engine run reported, for every value it
    /// could report. No report — the engine's negative return — is the
    /// unmatched result, not an error. A report of capture pairs is a
    /// match: it fills an offset buffer and extracts, yielding exactly the
    /// extracted substring sequence when every participating span fits the
    /// subject, and the extraction error otherwise.
    pub fn from_report(
        pattern: &'p CompiledPattern,
        report: Option<Vec<Option<(usize, usize)>>>,
        subject: &str,
    ) -> (r: Result<MatchResult<'p>, Error>)
        requires
            subject.spec_bytes().len() <= i32::MAX,
            report matches Some(pairs) ==> forall|i: int|
                0 <= i < pairs@.len() ==> ((#[trigger] pairs@[i]) matches Some(p) ==> p.0
                    <= subject.spec_bytes().len() && p.1 <= subject.spec_bytes().len()),
        ensures
            match report {
                None => r matches Ok(m) && !m.is_match() && m.origin() == *pattern,
                Some(pairs) => ({
                    let spans = capture_spans(slots_of(pairs@), 1, USABLE_PAIRS as int);
                    if all_spans_sliceable(spans, subject.spec_bytes()) {
                        r matches Ok(m) && m.is_match() && m.origin() == *pattern
                            && groups_match_spans(m.groups_seq(), spans, subject.spec_bytes())
                            && groups_nonempty(m.groups_seq()) && m.groups_seq().len()
                            < USABLE_PAIRS
                    } else {
                        r == Err::<MatchResult<'p>, Error>(Error::ExtractionError)
                    }
                }),
            },
    {
        match report {
            None => Ok(MatchResult { groups: None, pattern }),
            Some(pairs) => {
                let buf = OffsetBuffer::from_engine(&pairs);
                match buf.extract(subject) {
                    Ok(groups) => {
                        proof {
                            lemma_spans_count_participating(
                                slots_of(pairs@),
                                1,
                                USABLE_PAIRS as int,
                            );
                        }
                        Ok(MatchResult { groups: Some(groups), pattern })
                    },
                    Err(e) => Err(e),
                }
            },
        }
    }

    /// Whether the match attempt succeeded. A `false` here is an expected
    /// outcome, distinguishable from every error.
    pub fn matched(&self) -> (b: bool)
        ensures
            b == self.is_match(),
    {
        self.groups.is_some()
    }

    /// The captured substring at the given 0-based position of the
    /// extracted sequence. Asking outside the sequence, or asking anything
    /// of an unmatched result, is refused — never answered with a silent
    /// empty value.
    pub fn substring(&self, index: usize) -> (r: Result<String, Error>)
        ensures
            self.is_match() && index < self.groups_seq().len() ==> (r matches Ok(s) && s@
                == self.groups_seq()[index as int]@),
            !(self.is_match() && index < self.groups_seq().len()) ==> r == Err::<String, Error>(
                Error::IndexOutOfRange,
            ),
    {
        match &self.groups {
            None => Err(Error::IndexOutOfRange),
            Some(g) => {
                if index < g.len() {
                    Ok(g[index].clone())
                } else {
                    Err(Error::IndexOutOfRange)
                }
            },
        }
    }

    /// The full ordered sequence of captured substrings — empty when the
    /// pattern has no capturing groups, or when none participated.
    pub fn substrings(&self) -> (r: Vec<String>)
        requires
            self.is_match(),
        ensures
            r@.len() == self.groups_seq().len(),
            forall|j: int| 0 <= j < r@.len() ==> r@[j] == self.groups_seq()[j],
    {
        let g = match &self.groups {
            Some(g) => g,
            None => {
                proof {
                    assert(false);
                }
                return Vec::new();
            },
        };
        let mut out: Vec<String> = Vec::new();
        let mut i: usize = 0;
        while i < g.len()
            invariant
                i <= g@.len(),
                g@ == self.groups_seq(),
                out@.len() == i,
                forall|j: int| 0 <= j < i ==> out@[j] == g@[j],
            decreases g@.len() - i,
        {
            out.push(g[i].clone());
            i = i + 1;
        }
        out
    }

    /// The named group's captured substring, the name table given: the
    /// table's 1-based group number is taken down by one — the whole-match
    /// slot never being part of the extracted sequence — and read at that
    /// position of the sequence.
    pub fn named_in_table(&self, names: &Vec<Option<String>>, name: &str) -> (r: Result<
        String,
        Error,
    >)
        ensures
            !self.is_match() ==> r == Err::<String, Error>(Error::NoMatch),
            self.is_match() ==> match name_index(names@, name@) {
                None => r == Err::<String, Error>(Error::UnknownGroupName),
                Some(i) => {
                    if i - 1 < self.groups_seq().len() {
                        r matches Ok(s) && s@ == self.groups_seq()[i - 1]@
                    } else {
                        r == Err::<String, Error>(Error::IndexOutOfRange)
                    }
                },
            },
    {
        let g = match &self.groups {
            None => {
                return Err(Error::NoMatch);
            },
            Some(g) => g,
        };
        match resolve_name(names, name) {
            None => Err(Error::UnknownGroupName),
            Some(i) => {
                let pos = i - 1;
                if pos < g.len() {
                    Ok(g[pos].clone())
                } else {
                    Err(Error::IndexOutOfRange)
                }
            },
        }
    }

    /// Resolve a group name through the originating pattern's name table
    /// and return that group's captured substring. Fails with the unknown
    /// name on a name the pattern nowhere declares, out of range when the
    /// named group did not participate in this match, and no-match when
    /// called on an unmatched result.
    pub fn named(&self, name: &str) -> (r: Result<String, Error>)
        ensures
            !self.is_match() ==> r == Err::<String, Error>(Error::NoMatch),
            r matches Ok(s) ==> self.is_match() && exists|j: int|
                0 <= j < self.groups_seq().len() && s@ == #[trigger] self.groups_seq()[j]@,
            r matches Err(e) ==> (e == Error::NoMatch <==> !self.is_match()),
            r matches Err(e) ==> e == Error::NoMatch || e == Error::UnknownGroupName || e
                == Error::IndexOutOfRange,
    {
        let names = engine::engine_group_names(&self.pattern.re);
        proof {
            lemma_name_index_from_bounds(names@, name@, 1);
        }
        self.named_in_table(&names, name)
    }
}

} // verus!
