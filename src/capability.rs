use vstd::prelude::*;

verus! {

/// Penalty added when the producer's output type differs from the consumer's input type.
pub const TYPE_PENALTY: u64 = 100;

/// Penalty added when two capabilities share no encoding format.
pub const FORMAT_PENALTY: u64 = 10;

/// What an agent consumes and produces. Equality is structural.
#[derive(Clone, Debug, PartialEq, Eq)]
pub struct Capability {
    pub input_type: String,
    pub output_type: String,
    pub formats: Vec<String>,
    pub max_resolution: Option<String>,
}

/// The two format lists hold a common entry.
pub open spec fn formats_overlap(a: Seq<String>, b: Seq<String>) -> bool {
    exists|i: int, j: int| 0 <= i < a.len() && 0 <= j < b.len() && a[i]@ == b[j]@
}

/// The consumer accepts the producer's output type without conversion.
pub open spec fn types_compatible(from: Capability, to: Capability) -> bool {
    from.output_type@ == to.input_type@
}

/// Distance from what `from` produces to what `to` accepts.
pub open spec fn distance(from: Capability, to: Capability) -> nat {
    (if types_compatible(from, to) { 0nat } else { TYPE_PENALTY as nat })
        + (if formats_overlap(from.formats@, to.formats@) { 0nat } else { FORMAT_PENALTY as nat })
}

fn contains_format(formats: &Vec<String>, f: &String) -> (r: bool)
    ensures
        r == exists|j: int| 0 <= j < formats@.len() && formats@[j]@ == f@,
{
    let mut j: usize = 0;
    while j < formats.len()
        invariant
            j <= formats@.len(),
            forall|jj: int| 0 <= jj < j ==> formats@[jj]@ != f@,
        decreases formats@.len() - j,
    {
        if formats[j] == *f {
            return true;
        }
        j += 1;
    }
    false
}

fn has_common_format(a: &Vec<String>, b: &Vec<String>) -> (r: bool)
    ensures
        r == formats_overlap(a@, b@),
{
    let mut i: usize = 0;
    while i < a.len()
        invariant
            i <= a@.len(),
            forall|ii: int, j: int| 0 <= ii < i && 0 <= j < b@.len() ==> a@[ii]@ != b@[j]@,
        decreases a@.len() - i,
    {
        if contains_format(b, &a[i]) {
            return true;
        }
        i += 1;
    }
    false
}

/// Distance between the output side of `cap1` and the input side of `cap2`.
pub fn semantic_distance(cap1: &Capability, cap2: &Capability) -> (r: u64)
    ensures
        r == distance(*cap1, *cap2),
        r <= TYPE_PENALTY + FORMAT_PENALTY,
{
    let mut d: u64 = 0;
    if cap1.output_type != cap2.input_type {
        d = d + TYPE_PENALTY;
    }
    if !has_common_format(&cap1.formats, &cap2.formats) {
        d = d + FORMAT_PENALTY;
    }
    d
}

/// A capability whose output type is its own input type, and which lists at least
/// one format, is at distance zero from itself.
pub proof fn lemma_distance_self(c: Capability)
    requires
        c.input_type@ == c.output_type@,
        c.formats@.len() > 0,
    ensures
        distance(c, c) == 0,
{
    assert(c.formats@[0]@ == c.formats@[0]@);
}

/// When the type tags differ and no format is shared, both penalties apply.
pub proof fn lemma_distance_disjoint(a: Capability, b: Capability)
    requires
        a.output_type@ != b.input_type@,
        forall|i: int, j: int|
            0 <= i < a.formats@.len() && 0 <= j < b.formats@.len() ==> a.formats@[i]@ != b.formats@[j]@,
    ensures
        distance(a, b) == TYPE_PENALTY + FORMAT_PENALTY,
{
}

} // verus!
