//! Monotone access policies over attribute names, with negated leaves, and
//! the pruning that picks a satisfying set of leaves for a set of attributes.

use vstd::prelude::*;
use vstd::string::*;

verus! {

/// An access policy: a tree of AND and OR gates over attribute leaves, where a
/// leaf may ask for an attribute's absence.
pub enum Policy {
    Leaf(String),
    Not(String),
    And(Box<Policy>, Box<Policy>),
    Or(Box<Policy>, Box<Policy>),
}

/// The label of a negated leaf: the attribute name behind an exclamation mark.
pub open spec fn negated(name: Seq<char>) -> Seq<char> {
    seq!['!'] + name
}

/// The attribute names of a list of strings.
pub open spec fn names(v: Seq<String>) -> Seq<Seq<char>> {
    v.map_values(|s: String| s@)
}

/// The labels of the policy's leaves, from left to right.
pub open spec fn leaf_labels(p: Policy) -> Seq<Seq<char>>
    decreases p,
{
    match p {
        Policy::Leaf(a) => seq![a@],
        Policy::Not(a) => seq![negated(a@)],
        Policy::And(l, r) => leaf_labels(*l) + leaf_labels(*r),
        Policy::Or(l, r) => leaf_labels(*l) + leaf_labels(*r),
    }
}

/// Each text of the list behind the character `c`.
pub open spec fn prefixed(c: char, v: Seq<Seq<char>>) -> Seq<Seq<char>> {
    v.map_values(|t: Seq<char>| seq![c] + t)
}

/// The tag of a leaf at the root: a colon, then the leaf's label.
pub open spec fn root_tag(label: Seq<char>) -> Seq<char> {
    seq![':'] + label
}

/// The tags of the policy's leaves, from left to right: the path from the
/// root to the leaf, `L` for a left side and `R` for a right side, then a
/// colon and the leaf's label. Two leaves never share a tag, even where
/// they name the same attribute.
pub open spec fn leaf_tags(p: Policy) -> Seq<Seq<char>>
    decreases p,
{
    match p {
        Policy::Leaf(a) => seq![root_tag(a@)],
        Policy::Not(a) => seq![root_tag(negated(a@))],
        Policy::And(l, r) => prefixed('L', leaf_tags(*l)) + prefixed('R', leaf_tags(*r)),
        Policy::Or(l, r) => prefixed('L', leaf_tags(*l)) + prefixed('R', leaf_tags(*r)),
    }
}

/// The tags of the leaves that pruning picks, in the order of `pruned`.
pub open spec fn pruned_tags(p: Policy, attrs: Seq<Seq<char>>) -> Seq<Seq<char>>
    decreases p,
{
    if !holds(p, attrs) {
        Seq::empty()
    } else {
        match p {
            Policy::Leaf(a) => seq![root_tag(a@)],
            Policy::Not(a) => seq![root_tag(negated(a@))],
            Policy::And(l, r) => prefixed('L', pruned_tags(*l, attrs)) + prefixed(
                'R',
                pruned_tags(*r, attrs),
            ),
            Policy::Or(l, r) => if holds(*l, attrs) {
                prefixed('L', pruned_tags(*l, attrs))
            } else {
                prefixed('R', pruned_tags(*r, attrs))
            },
        }
    }
}

/// The number of leaves of the policy.
pub open spec fn leaf_count(p: Policy) -> nat {
    leaf_labels(p).len()
}

/// Whether a set of attributes satisfies the policy.
pub open spec fn holds(p: Policy, attrs: Seq<Seq<char>>) -> bool
    decreases p,
{
    match p {
        Policy::Leaf(a) => attrs.contains(a@),
        Policy::Not(a) => !attrs.contains(a@),
        Policy::And(l, r) => holds(*l, attrs) && holds(*r, attrs),
        Policy::Or(l, r) => holds(*l, attrs) || holds(*r, attrs),
    }
}

/// The labels of the leaves chosen to satisfy the policy: both sides of an
/// AND, the left side of an OR where it holds and the right side otherwise;
/// nothing where the policy does not hold.
pub open spec fn pruned(p: Policy, attrs: Seq<Seq<char>>) -> Seq<Seq<char>>
    decreases p,
{
    if !holds(p, attrs) {
        Seq::empty()
    } else {
        match p {
            Policy::Leaf(a) => seq![a@],
            Policy::Not(a) => seq![negated(a@)],
            Policy::And(l, r) => pruned(*l, attrs) + pruned(*r, attrs),
            Policy::Or(l, r) => if holds(*l, attrs) {
                pruned(*l, attrs)
            } else {
                pruned(*r, attrs)
            },
        }
    }
}

/// Whether the policy has a negated leaf.
pub open spec fn has_negation(p: Policy) -> bool
    decreases p,
{
    match p {
        Policy::Leaf(_) => false,
        Policy::Not(_) => true,
        Policy::And(l, r) => has_negation(*l) || has_negation(*r),
        Policy::Or(l, r) => has_negation(*l) || has_negation(*r),
    }
}

/// The label of a negated leaf over `name`.
pub fn negated_label(name: &String) -> (r: String)
    ensures
        r@ == negated(name@),
{
    let mut label = String::from_str("!");
    proof {
        reveal_strlit("!");
    }
    label.append(name.as_str());
    label
}

/// The text behind the prefix.
pub(crate) fn prefix_text(prefix: &str, t: &String) -> (r: String)
    ensures
        r@ == prefix@ + t@,
{
    let mut out = String::from_str(prefix);
    out.append(t.as_str());
    out
}

/// Each text of the list behind the prefix `L` or `R`.
pub(crate) fn prefix_all(left: bool, v: Vec<String>) -> (r: Vec<String>)
    ensures
        names(r@) == prefixed(if left { 'L' } else { 'R' }, names(v@)),
{
    proof {
        reveal_strlit("L");
        reveal_strlit("R");
    }
    let ghost c = if left { 'L' } else { 'R' };
    let mut out: Vec<String> = Vec::new();
    let mut i: usize = 0;
    while i < v.len()
        invariant
            i <= v@.len(),
            c == (if left { 'L' } else { 'R' }),
            names(out@) == prefixed(c, names(v@)).take(i as int),
        decreases v@.len() - i,
    {
        proof {
            reveal_strlit("L");
            reveal_strlit("R");
            assert("L"@ =~= seq!['L']);
            assert("R"@ =~= seq!['R']);
        }
        let t = if left {
            prefix_text("L", &v[i])
        } else {
            prefix_text("R", &v[i])
        };
        assert(t@ == seq![c] + v@[i as int]@);
        let ghost before = out@;
        out.push(t);
        assert(names(out@) =~= names(before).push(t@));
        assert(names(v@)[i as int] == v@[i as int]@);
        assert(prefixed(c, names(v@)).take(i + 1) =~= prefixed(c, names(v@)).take(i as int).push(
            seq![c] + names(v@)[i as int],
        ));
        i += 1;
    }
    assert(prefixed(c, names(v@)).take(i as int) =~= prefixed(c, names(v@)));
    out
}

/// The tag of a leaf at the root.
pub(crate) fn root_tag_of(label: &String) -> (r: String)
    ensures
        r@ == root_tag(label@),
{
    proof {
        reveal_strlit(":");
        assert(":"@ =~= seq![':']);
    }
    prefix_text(":", label)
}

/// Whether `name` is among the attributes.
pub fn has_attribute(attrs: &Vec<String>, name: &String) -> (r: bool)
    ensures
        r == names(attrs@).contains(name@),
{
    let mut i: usize = 0;
    while i < attrs.len()
        invariant
            0 <= i <= attrs.len(),
            forall|j: int| 0 <= j < i ==> attrs@[j]@ != name@,
        decreases attrs.len() - i,
    {
        if attrs[i] == *name {
            assert(names(attrs@)[i as int] == name@);
            return true;
        }
        i += 1;
    }
    assert(!names(attrs@).contains(name@)) by {
        if names(attrs@).contains(name@) {
            let k = choose|k: int| 0 <= k < names(attrs@).len() && names(attrs@)[k] == name@;
            assert(attrs@[k]@ == name@);
        }
    }
    false
}

impl Policy {
    /// Whether the policy has a negated leaf.
    pub fn contains_negation(&self) -> (r: bool)
        ensures
            r == has_negation(*self),
        decreases self,
    {
        match self {
            Policy::Leaf(_) => false,
            Policy::Not(_) => true,
            Policy::And(l, r) => l.contains_negation() || r.contains_negation(),
            Policy::Or(l, r) => l.contains_negation() || r.contains_negation(),
        }
    }

    /// The tags of the leaves, from left to right.
    pub fn tags(&self) -> (r: Vec<String>)
        ensures
            names(r@) == leaf_tags(*self),
        decreases self,
    {
        match self {
            Policy::Leaf(a) => {
                let r = vec![root_tag_of(a)];
                assert(names(r@) =~= leaf_tags(*self));
                r
            },
            Policy::Not(a) => {
                let r = vec![root_tag_of(&negated_label(a))];
                assert(names(r@) =~= leaf_tags(*self));
                r
            },
            Policy::And(l, r) | Policy::Or(l, r) => {
                let mut left = prefix_all(true, l.tags());
                let mut right = prefix_all(false, r.tags());
                let ghost (a, b) = (left@, right@);
                left.append(&mut right);
                assert(names(left@) =~= names(a) + names(b));
                left
            },
        }
    }

    /// The labels of the leaves, from left to right.
    pub fn labels(&self) -> (r: Vec<String>)
        ensures
            names(r@) == leaf_labels(*self),
        decreases self,
    {
        match self {
            Policy::Leaf(a) => {
                let r = vec![a.clone()];
                assert(names(r@) =~= leaf_labels(*self));
                r
            },
            Policy::Not(a) => {
                let r = vec![negated_label(a)];
                assert(names(r@) =~= leaf_labels(*self));
                r
            },
            Policy::And(l, r) | Policy::Or(l, r) => {
                let mut left = l.labels();
                let mut right = r.labels();
                let ghost (a, b) = (left@, right@);
                left.append(&mut right);
                assert(names(left@) =~= names(a) + names(b));
                left
            },
        }
    }
}

/// Decides whether the attributes satisfy the policy, and picks the labels of
/// the leaves that satisfy it (preferring the left side of an OR).
pub fn calc_pruned(attrs: &Vec<String>, p: &Policy) -> (r: (bool, Vec<String>))
    ensures
        r.0 == holds(*p, names(attrs@)),
        names(r.1@) == pruned(*p, names(attrs@)),
    decreases p,
{
    let ghost set = names(attrs@);
    match p {
        Policy::Leaf(a) => {
            if has_attribute(attrs, a) {
                let v = vec![a.clone()];
                assert(names(v@) =~= pruned(*p, set));
                (true, v)
            } else {
                let v: Vec<String> = Vec::new();
                assert(names(v@) =~= pruned(*p, set));
                (false, v)
            }
        },
        Policy::Not(a) => {
            if has_attribute(attrs, a) {
                let v: Vec<String> = Vec::new();
                assert(names(v@) =~= pruned(*p, set));
                (false, v)
            } else {
                let v = vec![negated_label(a)];
                assert(names(v@) =~= pruned(*p, set));
                (true, v)
            }
        },
        Policy::And(l, r) => {
            let (ok_l, mut left) = calc_pruned(attrs, l);
            let (ok_r, mut right) = calc_pruned(attrs, r);
            if ok_l && ok_r {
                let ghost (a, b) = (left@, right@);
                left.append(&mut right);
                assert(names(left@) =~= names(a) + names(b));
                (true, left)
            } else {
                let v: Vec<String> = Vec::new();
                assert(names(v@) =~= pruned(*p, set));
                (false, v)
            }
        },
        Policy::Or(l, r) => {
            let (ok_l, left) = calc_pruned(attrs, l);
            if ok_l {
                (true, left)
            } else {
                let (ok_r, right) = calc_pruned(attrs, r);
                if ok_r {
                    (true, right)
                } else {
                    let v: Vec<String> = Vec::new();
                    assert(names(v@) =~= pruned(*p, set));
                    (false, v)
                }
            }
        },
    }
}

/// Decides whether the attributes satisfy the policy, and picks the tags of
/// the leaves that satisfy it, as `calc_pruned` picks their labels.
pub fn calc_pruned_tags(attrs: &Vec<String>, p: &Policy) -> (r: (bool, Vec<String>))
    ensures
        r.0 == holds(*p, names(attrs@)),
        names(r.1@) == pruned_tags(*p, names(attrs@)),
    decreases p,
{
    let ghost set = names(attrs@);
    match p {
        Policy::Leaf(a) => {
            if has_attribute(attrs, a) {
                let v = vec![root_tag_of(a)];
                assert(names(v@) =~= pruned_tags(*p, set));
                (true, v)
            } else {
                let v: Vec<String> = Vec::new();
                assert(names(v@) =~= pruned_tags(*p, set));
                (false, v)
            }
        },
        Policy::Not(a) => {
            if has_attribute(attrs, a) {
                let v: Vec<String> = Vec::new();
                assert(names(v@) =~= pruned_tags(*p, set));
                (false, v)
            } else {
                let v = vec![root_tag_of(&negated_label(a))];
                assert(names(v@) =~= pruned_tags(*p, set));
                (true, v)
            }
        },
        Policy::And(l, r) => {
            let (ok_l, left) = calc_pruned_tags(attrs, l);
            let (ok_r, right) = calc_pruned_tags(attrs, r);
            if ok_l && ok_r {
                let mut left = prefix_all(true, left);
                let mut right = prefix_all(false, right);
                let ghost (a, b) = (left@, right@);
                left.append(&mut right);
                assert(names(left@) =~= names(a) + names(b));
                (true, left)
            } else {
                let v: Vec<String> = Vec::new();
                assert(names(v@) =~= pruned_tags(*p, set));
                (false, v)
            }
        },
        Policy::Or(l, r) => {
            let (ok_l, left) = calc_pruned_tags(attrs, l);
            if ok_l {
                (true, prefix_all(true, left))
            } else {
                let (ok_r, right) = calc_pruned_tags(attrs, r);
                if ok_r {
                    (true, prefix_all(false, right))
                } else {
                    let v: Vec<String> = Vec::new();
                    assert(names(v@) =~= pruned_tags(*p, set));
                    (false, v)
                }
            }
        },
    }
}

} // verus!
