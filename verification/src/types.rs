//! Data captured by a sniffing run: computed properties grouped by
//! category, derived metrics, pseudo-element styles, and the
//! `localStorage` entries of a persisted session.
use crate::properties::StyleCategory;
use crate::text::{chars_of, eq_str};
use vstd::prelude::*;

verus! {

/// A computed style value for a single CSS property.
#[derive(Debug, Clone, PartialEq, Eq)]
pub struct ComputedProperty {
    pub name: String,
    pub value: String,
}

/// Computed styles grouped by semantic category.
///
/// Groups are kept in declaration order; within each group properties
/// are kept in the order they were requested.
#[derive(Debug, Clone, PartialEq, Eq)]
pub struct ComputedStyles {
    pub groups: Vec<(StyleCategory, Vec<ComputedProperty>)>,
}

/// Number of properties across `groups`.
pub open spec fn props_total(groups: Seq<(StyleCategory, Vec<ComputedProperty>)>) -> nat
    decreases groups.len(),
{
    if groups.len() == 0 {
        0
    } else {
        props_total(groups.drop_last()) + groups.last().1@.len()
    }
}

/// The value of the first property named `name` in `props`.
pub open spec fn value_in(props: Seq<ComputedProperty>, name: Seq<char>) -> Option<Seq<char>>
    decreases props.len(),
{
    if props.len() == 0 {
        None
    } else if props[0].name@ == name {
        Some(props[0].value@)
    } else {
        value_in(props.drop_first(), name)
    }
}

/// The value of the first property named `name`, groups taken in order.
pub open spec fn value_across(groups: Seq<(StyleCategory, Vec<ComputedProperty>)>, name: Seq<char>) -> Option<
    Seq<char>,
>
    decreases groups.len(),
{
    if groups.len() == 0 {
        None
    } else {
        match value_in(groups[0].1@, name) {
            Some(v) => Some(v),
            None => value_across(groups.drop_first(), name),
        }
    }
}

impl Default for ComputedStyles {
    fn default() -> (s: ComputedStyles)
        ensures
            s.groups@.len() == 0,
    {
        ComputedStyles { groups: Vec::new() }
    }
}

impl ComputedStyles {
    /// Total number of properties across all groups.
    pub fn len(&self) -> (n: usize)
        requires
            props_total(self.groups@) <= usize::MAX,
        ensures
            n == props_total(self.groups@),
    {
        let mut n: usize = 0;
        let mut i: usize = 0;
        while i < self.groups.len()
            invariant
                i <= self.groups.len(),
                props_total(self.groups@) <= usize::MAX,
                n == props_total(self.groups@.take(i as int)),
            decreases self.groups.len() - i,
        {
            assert(self.groups@.take(i + 1).drop_last() =~= self.groups@.take(i as int));
            proof {
                lemma_props_total_prefix(self.groups@, i + 1);
            }
            n = n + self.groups[i].1.len();
            i = i + 1;
        }
        assert(self.groups@.take(self.groups.len() as int) =~= self.groups@);
        n
    }

    /// Whether no property was captured.
    pub fn is_empty(&self) -> (r: bool)
        requires
            props_total(self.groups@) <= usize::MAX,
        ensures
            r == (props_total(self.groups@) == 0),
    {
        self.len() == 0
    }

    /// Look up a single property value across all groups.
    pub fn get(&self, name: &str) -> (r: Option<&str>)
        ensures
            match r {
                Some(v) => value_across(self.groups@, name@) == Some(v@),
                None => value_across(self.groups@, name@) is None,
            },
    {
        let ghost gs = self.groups@;
        let target = chars_of(name);
        let mut i: usize = 0;
        assert(gs.skip(0) =~= gs);
        while i < self.groups.len()
            invariant
                i <= self.groups.len(),
                gs == self.groups@,
                target@ == name@,
                value_across(gs, name@) == value_across(gs.skip(i as int), name@),
            decreases self.groups.len() - i,
        {
            assert(gs.skip(i as int).drop_first() =~= gs.skip(i + 1));
            let props = &self.groups[i].1;
            let ghost ps = props@;
            let mut j: usize = 0;
            assert(ps.skip(0) =~= ps);
            while j < props.len()
                invariant
                    j <= props.len(),
                    ps == props@,
                    target@ == name@,
                    i < self.groups.len(),
                    gs == self.groups@,
                    ps == gs[i as int].1@,
                    value_across(gs, name@) == value_across(gs.skip(i as int), name@),
                    value_in(ps, name@) == value_in(ps.skip(j as int), name@),
                decreases props.len() - j,
            {
                assert(ps.skip(j as int).drop_first() =~= ps.skip(j + 1));
                if eq_str(&target, props[j].name.as_str()) {
                    return Some(props[j].value.as_str());
                }
                j = j + 1;
            }
            assert(ps.skip(j as int) =~= Seq::<ComputedProperty>::empty());
            i = i + 1;
        }
        assert(gs.skip(i as int) =~= Seq::<(StyleCategory, Vec<ComputedProperty>)>::empty());
        None
    }
}

proof fn lemma_props_total_prefix(groups: Seq<(StyleCategory, Vec<ComputedProperty>)>, k: int)
    requires
        0 <= k <= groups.len(),
    ensures
        props_total(groups.take(k)) <= props_total(groups),
    decreases groups.len(),
{
    if k < groups.len() {
        assert(groups.drop_last().take(k) =~= groups.take(k));
        lemma_props_total_prefix(groups.drop_last(), k);
    } else {
        assert(groups.take(k) =~= groups);
    }
}

/// Derived layout metrics useful for AI analysis.
#[derive(Debug, Clone, PartialEq, Eq)]
pub struct ElementMetrics {
    pub z_index: String,
    pub stacking_context: bool,
}

/// Computed styles for a single pseudo-element.
#[derive(Debug, Clone, PartialEq, Eq)]
pub struct PseudoStyles {
    /// Pseudo-element name, e.g. `::before`.
    pub name: String,
    /// Captured styles.
    pub styles: ComputedStyles,
}

} // verus!
