//! Single edits and edit scripts: what it means to transform one byte
//! sequence into another by insertions, deletions and substitutions.

use vstd::prelude::*;

verus! {

/// One single-element edit of a byte sequence.
pub enum Edit {
    /// Put `unit` in front of the element at position `at`, or at the end
    /// where `at` is the length of the sequence.
    Insert { at: int, unit: u8 },
    /// Take out the element at position `at`.
    Delete { at: int },
    /// Put `unit` in place of the element at position `at`.
    Substitute { at: int, unit: u8 },
}

impl Edit {
    /// Whether the position this edit names exists in `s`.
    pub open spec fn applies_to(self, s: Seq<u8>) -> bool {
        match self {
            Edit::Insert { at, .. } => 0 <= at <= s.len(),
            Edit::Delete { at } => 0 <= at < s.len(),
            Edit::Substitute { at, .. } => 0 <= at < s.len(),
        }
    }

    /// The sequence that this edit makes of `s`.
    pub open spec fn apply(self, s: Seq<u8>) -> Seq<u8>
        recommends
            self.applies_to(s),
    {
        match self {
            Edit::Insert { at, unit } => s.insert(at, unit),
            Edit::Delete { at } => s.remove(at),
            Edit::Substitute { at, unit } => s.update(at, unit),
        }
    }
}

/// Whether `script`, carried out edit by edit starting from `a`, applies at
/// every step and ends with `b`.
pub open spec fn transforms(script: Seq<Edit>, a: Seq<u8>, b: Seq<u8>) -> bool
    decreases script.len(),
{
    if script.len() == 0 {
        a == b
    } else {
        script[0].applies_to(a) && transforms(script.drop_first(), script[0].apply(a), b)
    }
}

/// A script of one edit transforms a sequence into what that edit makes of
/// it.
pub proof fn lemma_single_edit_transforms(edit: Edit, s: Seq<u8>)
    requires
        edit.applies_to(s),
    ensures
        transforms(seq![edit], s, edit.apply(s)),
{
    assert(transforms(seq![edit].drop_first(), edit.apply(s), edit.apply(s)));
}

/// Scripts compose: a script from `a` to `b` followed by a script from `b`
/// to `c` transforms `a` into `c`.
pub proof fn lemma_transforms_compose(
    first: Seq<Edit>,
    second: Seq<Edit>,
    a: Seq<u8>,
    b: Seq<u8>,
    c: Seq<u8>,
)
    requires
        transforms(first, a, b),
        transforms(second, b, c),
    ensures
        transforms(first + second, a, c),
    decreases first.len(),
{
    if first.len() == 0 {
        assert(first + second =~= second);
    } else {
        lemma_transforms_compose(first.drop_first(), second, first[0].apply(a), b, c);
        assert((first + second).drop_first() =~= first.drop_first() + second);
    }
}

/// A script that transforms `a` into `b` does the same in front of any
/// common suffix.
pub proof fn lemma_transforms_before_suffix(
    script: Seq<Edit>,
    a: Seq<u8>,
    b: Seq<u8>,
    suffix: Seq<u8>,
)
    requires
        transforms(script, a, b),
    ensures
        transforms(script, a + suffix, b + suffix),
    decreases script.len(),
{
    if script.len() > 0 {
        let edit = script[0];
        assert(edit.apply(a + suffix) =~= edit.apply(a) + suffix);
        lemma_transforms_before_suffix(script.drop_first(), edit.apply(a), b, suffix);
    }
}

} // verus!
