//! Linear secret sharing over policy trees: shares of a secret for each leaf,
//! the coefficients that recombine them, and the proof that the shares of the
//! leaves picked by pruning recombine to the secret.

use vstd::prelude::*;
use crate::parser::{lemma_same_policy_alike, lemma_tokens_same_policy, parse_policy, spells};
use crate::policy::{calc_pruned_tags, has_negation, leaf_tags, prefixed, pruned_tags, Policy, leaf_labels, leaf_count, holds, names, negated_label, pruned};
use crate::scalar::{Scalar, order};

verus! {

/// The labels of a list of labelled scalars.
pub open spec fn share_labels(s: Seq<(String, Scalar)>) -> Seq<Seq<char>> {
    s.map_values(|e: (String, Scalar)| e.0@)
}

/// The integers of a list of labelled scalars.
pub open spec fn share_values(s: Seq<(String, Scalar)>) -> Seq<int> {
    s.map_values(|e: (String, Scalar)| e.1.value())
}

/// The share that `s`, one share per leaf from left to right, gives the root
/// of the policy: a leaf's own; an OR's left side's; the sum of an AND's two
/// sides, modulo the group order.
pub open spec fn root_share(p: Policy, s: Seq<int>) -> int
    decreases p,
{
    match p {
        Policy::Leaf(_) => s[0],
        Policy::Not(_) => s[0],
        Policy::Or(l, r) => root_share(*l, s.take(leaf_count(*l) as int)),
        Policy::And(l, r) => {
            let n = leaf_count(*l) as int;
            (root_share(*l, s.take(n)) + root_share(*r, s.skip(n))) % order()
        },
    }
}

/// Whether `s` holds one reduced share per leaf of the policy, and the two
/// sides of every OR have the same share.
pub open spec fn shares_agree(p: Policy, s: Seq<int>) -> bool
    decreases p,
{
    match p {
        Policy::Leaf(_) => s.len() == 1 && 0 <= s[0] < order(),
        Policy::Not(_) => s.len() == 1 && 0 <= s[0] < order(),
        Policy::Or(l, r) => {
            let n = leaf_count(*l) as int;
            0 <= n <= s.len() && shares_agree(*l, s.take(n)) && shares_agree(*r, s.skip(n))
                && root_share(*l, s.take(n)) == root_share(*r, s.skip(n))
        },
        Policy::And(l, r) => {
            let n = leaf_count(*l) as int;
            0 <= n <= s.len() && shares_agree(*l, s.take(n)) && shares_agree(*r, s.skip(n))
        },
    }
}

/// Whether `s` shares `parent` over the policy: a leaf's share is its
/// parent's; the two sides of an OR have the parent's share each; the shares
/// of the two sides of an AND add up to the parent's, modulo the group order.
pub open spec fn shares_fit(p: Policy, parent: int, s: Seq<int>) -> bool {
    shares_agree(p, s) && root_share(p, s) == parent
}

/// The weighted sum of the shares of the leaves that pruning picks, with
/// `w` the weight of each leaf from left to right.
pub open spec fn pruned_sum(p: Policy, attrs: Seq<Seq<char>>, w: Seq<int>, s: Seq<int>) -> int
    decreases p,
{
    if !holds(p, attrs) {
        0
    } else {
        match p {
            Policy::Leaf(_) => w[0] * s[0],
            Policy::Not(_) => w[0] * s[0],
            Policy::And(l, r) => {
                let n = leaf_count(*l) as int;
                pruned_sum(*l, attrs, w.take(n), s.take(n)) + pruned_sum(
                    *r,
                    attrs,
                    w.skip(n),
                    s.skip(n),
                )
            },
            Policy::Or(l, r) => {
                let n = leaf_count(*l) as int;
                if holds(*l, attrs) {
                    pruned_sum(*l, attrs, w.take(n), s.take(n))
                } else {
                    pruned_sum(*r, attrs, w.skip(n), s.skip(n))
                }
            },
        }
    }
}

proof fn lemma_split_labels(a: Seq<(String, Scalar)>, b: Seq<(String, Scalar)>)
    ensures
        share_labels(a + b) == share_labels(a) + share_labels(b),
        share_values(a + b).take(a.len() as int) == share_values(a),
        share_values(a + b).skip(a.len() as int) == share_values(b),
{
    assert(share_labels(a + b) =~= share_labels(a) + share_labels(b));
    assert(share_values(a + b).take(a.len() as int) =~= share_values(a));
    assert(share_values(a + b).skip(a.len() as int) =~= share_values(b));
}

/// The number of tags is the number of leaves.
pub proof fn lemma_tag_count(p: Policy)
    ensures
        leaf_tags(p).len() == leaf_labels(p).len(),
    decreases p,
{
    match p {
        Policy::And(l, r) | Policy::Or(l, r) => {
            lemma_tag_count(*l);
            lemma_tag_count(*r);
        },
        _ => {},
    }
}

/// Splits `secret` into one share per leaf of the policy, from left to right,
/// each under the leaf's tag: an AND passes a fresh random scalar to its left
/// side and the rest to its right side; an OR passes its share to both sides.
pub fn gen_shares(secret: &Scalar, p: &Policy) -> (r: Vec<(String, Scalar)>)
    ensures
        share_labels(r@) == leaf_tags(*p),
        shares_fit(*p, secret.value(), share_values(r@)),
{
    let shares = share_tree(secret, p);
    let tags = p.tags();
    proof {
        lemma_tag_count(*p);
        assert(share_labels(shares@).len() == shares@.len());
    }
    let mut r: Vec<(String, Scalar)> = Vec::new();
    let mut i: usize = 0;
    while i < shares.len()
        invariant
            i <= shares@.len(),
            shares@.len() == tags@.len(),
            names(tags@) == leaf_tags(*p),
            share_labels(r@) == names(tags@).take(i as int),
            share_values(r@) == share_values(shares@).take(i as int),
        decreases shares@.len() - i,
    {
        let ghost before = r@;
        let t = tags[i].clone();
        r.push((t, shares[i].1));
        assert(share_labels(r@) =~= share_labels(before).push(t@));
        assert(names(tags@)[i as int] == t@);
        assert(names(tags@).take(i + 1) =~= names(tags@).take(i as int).push(t@));
        assert(share_values(r@) =~= share_values(shares@).take(i + 1));
        i += 1;
    }
    assert(names(tags@).take(i as int) =~= names(tags@));
    assert(share_values(shares@).take(i as int) =~= share_values(shares@));
    r
}

/// The shares of `secret` over the policy's leaves, under the leaves' labels.
fn share_tree(secret: &Scalar, p: &Policy) -> (r: Vec<(String, Scalar)>)
    ensures
        share_labels(r@) == leaf_labels(*p),
        shares_fit(*p, secret.value(), share_values(r@)),
    decreases p,
{
    match p {
        Policy::Leaf(a) => {
            secret.known_reduced();
            let r = vec![(a.clone(), *secret)];
            assert(share_labels(r@) =~= leaf_labels(*p));
            assert(share_values(r@) =~= seq![secret.value()]);
            r
        },
        Policy::Not(a) => {
            secret.known_reduced();
            let r = vec![(negated_label(a), *secret)];
            assert(share_labels(r@) =~= leaf_labels(*p));
            assert(share_values(r@) =~= seq![secret.value()]);
            r
        },
        Policy::And(l, r) => {
            let rho = Scalar::random();
            let rest = secret.sub(&rho);
            secret.known_reduced();
            rho.known_reduced();
            let mut left = share_tree(&rho, l);
            let mut right = share_tree(&rest, r);
            let ghost (a, b) = (left@, right@);
            left.append(&mut right);
            proof {
                lemma_split_labels(a, b);
                assert(share_labels(a).len() == a.len());
                let vals = share_values(left@);
                let n = leaf_count(**l) as int;
                assert(n == a.len());
                assert(vals.take(n) == share_values(a));
                vstd::arithmetic::div_mod::lemma_add_mod_noop_right(
                    rho.value(),
                    secret.value() - rho.value(),
                    order(),
                );
                vstd::arithmetic::div_mod::lemma_small_mod(secret.value() as nat, order() as nat);
            }
            left
        },
        Policy::Or(l, r) => {
            let mut left = share_tree(secret, l);
            let mut right = share_tree(secret, r);
            let ghost (a, b) = (left@, right@);
            left.append(&mut right);
            proof {
                lemma_split_labels(a, b);
                assert(share_labels(a).len() == a.len());
            }
            left
        },
    }
}

/// The recombination coefficient of each leaf, from left to right: the root
/// weighs one and every gate hands its weight to both sides unchanged.
pub fn calc_coefficients(p: &Policy) -> (r: Vec<(String, Scalar)>)
    ensures
        share_labels(r@) == leaf_tags(*p),
        forall|i: int| 0 <= i < r@.len() ==> (#[trigger] r@[i]).1.value() == 1,
{
    let labels = p.tags();
    let mut r: Vec<(String, Scalar)> = Vec::new();
    let mut i: usize = 0;
    while i < labels.len()
        invariant
            0 <= i <= labels.len(),
            r@.len() == i,
            share_labels(r@) == names(labels@).take(i as int),
            forall|j: int| 0 <= j < r@.len() ==> (#[trigger] r@[j]).1.value() == 1,
        decreases labels.len() - i,
    {
        r.push((labels[i].clone(), Scalar::one()));
        assert(share_labels(r@) =~= names(labels@).take(i + 1));
        i += 1;
    }
    assert(names(labels@).take(i as int) =~= names(labels@));
    r
}

proof fn lemma_root_reduced(p: Policy, s: Seq<int>)
    requires
        shares_agree(p, s),
    ensures
        0 <= root_share(p, s) < order(),
    decreases p,
{
    match p {
        Policy::Or(l, r) => lemma_root_reduced(*l, s.take(leaf_count(*l) as int)),
        Policy::And(l, r) => {
            let n = leaf_count(*l) as int;
            vstd::arithmetic::div_mod::lemma_mod_bound(
                root_share(*l, s.take(n)) + root_share(*r, s.skip(n)),
                order(),
            );
        },
        _ => {},
    }
}

proof fn lemma_pruned_sum_root(p: Policy, attrs: Seq<Seq<char>>, w: Seq<int>, s: Seq<int>)
    requires
        shares_agree(p, s),
        holds(p, attrs),
        w.len() == s.len(),
        forall|i: int| 0 <= i < w.len() ==> w[i] == 1,
    ensures
        pruned_sum(p, attrs, w, s) % order() == root_share(p, s),
    decreases p,
{
    let m = order();
    lemma_root_reduced(p, s);
    match p {
        Policy::Leaf(_) => {
            vstd::arithmetic::div_mod::lemma_small_mod(s[0] as nat, m as nat);
        },
        Policy::Not(_) => {
            vstd::arithmetic::div_mod::lemma_small_mod(s[0] as nat, m as nat);
        },
        Policy::Or(l, r) => {
            let n = leaf_count(*l) as int;
            if holds(*l, attrs) {
                lemma_pruned_sum_root(*l, attrs, w.take(n), s.take(n));
            } else {
                lemma_pruned_sum_root(*r, attrs, w.skip(n), s.skip(n));
            }
        },
        Policy::And(l, r) => {
            let n = leaf_count(*l) as int;
            lemma_pruned_sum_root(*l, attrs, w.take(n), s.take(n));
            lemma_pruned_sum_root(*r, attrs, w.skip(n), s.skip(n));
            let a = pruned_sum(*l, attrs, w.take(n), s.take(n));
            let b = pruned_sum(*r, attrs, w.skip(n), s.skip(n));
            vstd::arithmetic::div_mod::lemma_add_mod_noop(a, b, m);
        },
    }
}

/// Shares of a secret, weighted by the coefficients (all one), recombine
/// over the leaves that pruning picks to the secret, modulo the group order,
/// whatever random scalars the sharing drew.
pub proof fn lemma_reconstruction(p: Policy, attrs: Seq<Seq<char>>, w: Seq<int>, secret: int, s: Seq<int>)
    requires
        shares_fit(p, secret, s),
        holds(p, attrs),
        w.len() == s.len(),
        forall|i: int| 0 <= i < w.len() ==> w[i] == 1,
    ensures
        pruned_sum(p, attrs, w, s) % order() == secret,
{
    lemma_pruned_sum_root(p, attrs, w, s);
}

/// A text behind one character is that text again after it.
proof fn lemma_prefixed_eq(c: char, d: char, u: Seq<char>, v: Seq<char>)
    ensures
        (seq![c] + u == seq![d] + v) == (c == d && u == v),
{
    if seq![c] + u == seq![d] + v {
        assert((seq![c] + u)[0] == c);
        assert((seq![c] + u).skip(1) =~= u);
        assert((seq![d] + v).skip(1) =~= v);
    }
}

/// A text is among the prefixed texts exactly when it is the prefix
/// followed by one of them.
proof fn lemma_prefixed_contains(c: char, v: Seq<Seq<char>>, d: char, t: Seq<char>)
    ensures
        prefixed(c, v).contains(seq![d] + t) == (c == d && v.contains(t)),
{
    if prefixed(c, v).contains(seq![d] + t) {
        let k = choose|k: int| 0 <= k < prefixed(c, v).len() && prefixed(c, v)[k] == seq![d] + t;
        lemma_prefixed_eq(c, d, v[k], t);
    }
    if c == d && v.contains(t) {
        let k = choose|k: int| 0 <= k < v.len() && v[k] == t;
        assert(prefixed(c, v)[k] == seq![d] + t);
    }
}

/// Every tag that pruning picks is the tag of a share: the tags that
/// `calc_pruned_tags` returns are among those under which `gen_shares` and
/// `calc_coefficients` list the leaves.
pub proof fn lemma_pruned_tags_are_share_tags(p: Policy, attrs: Seq<Seq<char>>)
    ensures
        forall|i: int|
            0 <= i < pruned_tags(p, attrs).len() ==> leaf_tags(p).contains(
                #[trigger] pruned_tags(p, attrs)[i],
            ),
    decreases p,
{
    if holds(p, attrs) {
        match p {
            Policy::Leaf(_) => {
                assert(leaf_tags(p)[0] == pruned_tags(p, attrs)[0]);
            },
            Policy::Not(_) => {
                assert(leaf_tags(p)[0] == pruned_tags(p, attrs)[0]);
            },
            Policy::And(l, r) | Policy::Or(l, r) => {
                lemma_pruned_tags_are_share_tags(*l, attrs);
                lemma_pruned_tags_are_share_tags(*r, attrs);
                let tl = leaf_tags(*l);
                let tr = leaf_tags(*r);
                let pl = pruned_tags(*l, attrs);
                let pr = pruned_tags(*r, attrs);
                assert forall|i: int| 0 <= i < pruned_tags(p, attrs).len() implies leaf_tags(
                    p,
                ).contains(#[trigger] pruned_tags(p, attrs)[i]) by {
                    let x = pruned_tags(p, attrs)[i];
                    let lp = prefixed('L', pl);
                    let rp = prefixed('R', pr);
                    if (p is And && i < lp.len()) || (p is Or && holds(*l, attrs)) {
                        assert(x == seq!['L'] + pl[i]);
                        lemma_prefixed_contains('L', tl, 'L', pl[i]);
                        assert(leaf_tags(p) == prefixed('L', tl) + prefixed('R', tr));
                        let k = choose|k: int| 0 <= k < prefixed('L', tl).len() && prefixed('L', tl)[k] == x;
                        assert(leaf_tags(p)[k] == x);
                    } else {
                        let j = if p is And { i - lp.len() } else { i };
                        assert(x == seq!['R'] + pr[j]);
                        lemma_prefixed_contains('R', tr, 'R', pr[j]);
                        assert(leaf_tags(p) == prefixed('L', tl) + prefixed('R', tr));
                        let k = choose|k: int| 0 <= k < prefixed('R', tr).len() && prefixed('R', tr)[k] == x;
                        assert(leaf_tags(p)[prefixed('L', tl).len() + k] == x);
                    }
                }
            },
        }
    }
}

/// No two leaves of a policy share a tag.
pub proof fn lemma_tags_distinct(p: Policy)
    ensures
        leaf_tags(p).no_duplicates(),
    decreases p,
{
    match p {
        Policy::And(l, r) | Policy::Or(l, r) => {
            lemma_tags_distinct(*l);
            lemma_tags_distinct(*r);
            let tl = leaf_tags(*l);
            let tr = leaf_tags(*r);
            let a = prefixed('L', tl);
            let b = prefixed('R', tr);
            assert(leaf_tags(p) == a + b);
            assert forall|i: int, j: int|
                0 <= i < (a + b).len() && 0 <= j < (a + b).len() && i != j implies (a + b)[i] != (a
                    + b)[j] by {
                if i < a.len() && j < a.len() {
                    lemma_prefixed_eq('L', 'L', tl[i], tl[j]);
                } else if i >= a.len() && j >= a.len() {
                    lemma_prefixed_eq('R', 'R', tr[i - a.len()], tr[j - a.len()]);
                } else if i < a.len() {
                    lemma_prefixed_eq('L', 'R', tl[i], tr[j - a.len()]);
                } else {
                    lemma_prefixed_eq('R', 'L', tr[i - a.len()], tl[j]);
                }
            }
        },
        _ => {},
    }
}

/// Pruning picks as many tags as labels.
pub proof fn lemma_pruned_tag_count(p: Policy, attrs: Seq<Seq<char>>)
    ensures
        pruned_tags(p, attrs).len() == pruned(p, attrs).len(),
    decreases p,
{
    match p {
        Policy::And(l, r) | Policy::Or(l, r) => {
            lemma_pruned_tag_count(*l, attrs);
            lemma_pruned_tag_count(*r, attrs);
        },
        _ => {},
    }
}

/// Every label that pruning picks from a policy without negated leaves is
/// one of the attributes.
pub proof fn lemma_pruned_labels_are_attributes(p: Policy, attrs: Seq<Seq<char>>)
    requires
        !has_negation(p),
    ensures
        forall|i: int|
            0 <= i < pruned(p, attrs).len() ==> attrs.contains(#[trigger] pruned(p, attrs)[i]),
    decreases p,
{
    if holds(p, attrs) {
        match p {
            Policy::And(l, r) => {
                lemma_pruned_labels_are_attributes(*l, attrs);
                lemma_pruned_labels_are_attributes(*r, attrs);
                let pl = pruned(*l, attrs);
                let pr = pruned(*r, attrs);
                assert(pruned(p, attrs) == pl + pr);
                assert forall|i: int| 0 <= i < pruned(p, attrs).len() implies attrs.contains(
                    #[trigger] pruned(p, attrs)[i],
                ) by {
                    if i < pl.len() {
                        assert(pruned(p, attrs)[i] == pl[i]);
                    } else {
                        assert(pruned(p, attrs)[i] == pr[i - pl.len()]);
                    }
                }
            },
            Policy::Or(l, r) => {
                lemma_pruned_labels_are_attributes(*l, attrs);
                lemma_pruned_labels_are_attributes(*r, attrs);
                if holds(*l, attrs) {
                    assert(pruned(p, attrs) == pruned(*l, attrs));
                } else {
                    assert(pruned(p, attrs) == pruned(*r, attrs));
                }
            },
            Policy::Leaf(a) => {
                assert(pruned(p, attrs)[0] == a@);
            },
            Policy::Not(_) => {},
        }
    }
}

/// The entry of `vals` at the first position where `labels` holds `l`; zero
/// where `l` is not among the labels.
pub open spec fn first_value(labels: Seq<Seq<char>>, vals: Seq<int>, l: Seq<char>) -> int
    decreases labels.len(),
{
    if labels.len() == 0 {
        0
    } else if labels[0] == l {
        vals[0]
    } else {
        first_value(labels.skip(1), vals.skip(1), l)
    }
}

/// The sum, over the labels of `list`, of the label's weight times its share,
/// each looked up by label as decryption looks them up.
pub open spec fn label_sum(list: Seq<Seq<char>>, labels: Seq<Seq<char>>, w: Seq<int>, s: Seq<int>) -> int
    decreases list.len(),
{
    if list.len() == 0 {
        0
    } else {
        first_value(labels, w, list[0]) * first_value(labels, s, list[0]) + label_sum(
            list.skip(1),
            labels,
            w,
            s,
        )
    }
}

/// Looking up a tag behind `c` in the tags of the two sides of a gate, `L`
/// before the left side's and `R` before the right side's, finds it on that
/// side.
proof fn lemma_first_value_sides(
    a: Seq<Seq<char>>,
    b: Seq<Seq<char>>,
    x: Seq<int>,
    y: Seq<int>,
    c: char,
    t: Seq<char>,
)
    requires
        x.len() == a.len(),
        y.len() == b.len(),
        c == 'L' || c == 'R',
    ensures
        first_value(prefixed('L', a) + prefixed('R', b), x + y, seq![c] + t) == if c == 'L' {
            first_value(a, x, t)
        } else {
            first_value(b, y, t)
        },
    decreases a.len() + b.len(),
{
    let all = prefixed('L', a) + prefixed('R', b);
    if a.len() > 0 {
        assert(all[0] == seq!['L'] + a[0]);
        assert((x + y)[0] == x[0]);
        lemma_prefixed_eq('L', c, a[0], t);
        assert(all.skip(1) =~= prefixed('L', a.skip(1)) + prefixed('R', b));
        assert((x + y).skip(1) =~= x.skip(1) + y);
        lemma_first_value_sides(a.skip(1), b, x.skip(1), y, c, t);
    } else if b.len() > 0 {
        assert(all =~= prefixed('R', b));
        assert(x + y =~= y);
        assert(all[0] == seq!['R'] + b[0]);
        lemma_prefixed_eq('R', c, b[0], t);
        assert(all.skip(1) =~= prefixed('L', a) + prefixed('R', b.skip(1)));
        assert(y.skip(1) =~= x + y.skip(1));
        lemma_first_value_sides(a, b.skip(1), x, y.skip(1), c, t);
    }
}

proof fn lemma_label_sum_concat(l1: Seq<Seq<char>>, l2: Seq<Seq<char>>, labels: Seq<Seq<char>>, w: Seq<int>, s: Seq<int>)
    ensures
        label_sum(l1 + l2, labels, w, s) == label_sum(l1, labels, w, s) + label_sum(l2, labels, w, s),
    decreases l1.len(),
{
    if l1.len() == 0 {
        assert(l1 + l2 =~= l2);
    } else {
        assert((l1 + l2)[0] == l1[0]);
        assert((l1 + l2).skip(1) =~= l1.skip(1) + l2);
        lemma_label_sum_concat(l1.skip(1), l2, labels, w, s);
    }
}

/// Summing a side's tags, each behind its side's letter, over the tags of
/// both sides gives that side's own sum.
proof fn lemma_label_sum_side(
    list: Seq<Seq<char>>,
    c: char,
    a: Seq<Seq<char>>,
    b: Seq<Seq<char>>,
    wa: Seq<int>,
    wb: Seq<int>,
    sa: Seq<int>,
    sb: Seq<int>,
)
    requires
        wa.len() == a.len(),
        sa.len() == a.len(),
        wb.len() == b.len(),
        sb.len() == b.len(),
        c == 'L' || c == 'R',
    ensures
        label_sum(prefixed(c, list), prefixed('L', a) + prefixed('R', b), wa + wb, sa + sb) == if c
            == 'L' {
            label_sum(list, a, wa, sa)
        } else {
            label_sum(list, b, wb, sb)
        },
    decreases list.len(),
{
    if list.len() > 0 {
        assert(prefixed(c, list)[0] == seq![c] + list[0]);
        assert(prefixed(c, list).skip(1) =~= prefixed(c, list.skip(1)));
        lemma_first_value_sides(a, b, wa, wb, c, list[0]);
        lemma_first_value_sides(a, b, sa, sb, c, list[0]);
        lemma_label_sum_side(list.skip(1), c, a, b, wa, wb, sa, sb);
    }
}

proof fn lemma_tag_sum_is_pruned_sum(p: Policy, attrs: Seq<Seq<char>>, w: Seq<int>, s: Seq<int>)
    requires
        w.len() == leaf_labels(p).len(),
        s.len() == leaf_labels(p).len(),
    ensures
        label_sum(pruned_tags(p, attrs), leaf_tags(p), w, s) == pruned_sum(p, attrs, w, s),
    decreases p,
{
    let tags = leaf_tags(p);
    if !holds(p, attrs) {
        return;
    }
    match p {
        Policy::Leaf(_) | Policy::Not(_) => {
            let list = pruned_tags(p, attrs);
            assert(list.skip(1) =~= Seq::<Seq<char>>::empty());
            assert(label_sum(list.skip(1), tags, w, s) == 0);
            assert(tags[0] == list[0]);
            assert(first_value(tags, w, list[0]) == w[0]);
            assert(first_value(tags, s, list[0]) == s[0]);
        },
        Policy::And(l, r) | Policy::Or(l, r) => {
            let n = leaf_count(*l) as int;
            lemma_tag_count(*l);
            lemma_tag_count(*r);
            let tl = leaf_tags(*l);
            let tr = leaf_tags(*r);
            assert(tags == prefixed('L', tl) + prefixed('R', tr));
            assert(w =~= w.take(n) + w.skip(n));
            assert(s =~= s.take(n) + s.skip(n));
            lemma_tag_sum_is_pruned_sum(*l, attrs, w.take(n), s.take(n));
            lemma_tag_sum_is_pruned_sum(*r, attrs, w.skip(n), s.skip(n));
            let pl = pruned_tags(*l, attrs);
            let pr = pruned_tags(*r, attrs);
            lemma_label_sum_side(pl, 'L', tl, tr, w.take(n), w.skip(n), s.take(n), s.skip(n));
            lemma_label_sum_side(pr, 'R', tl, tr, w.take(n), w.skip(n), s.take(n), s.skip(n));
            if p is And {
                lemma_label_sum_concat(prefixed('L', pl), prefixed('R', pr), tags, w, s);
                assert(pruned_tags(p, attrs) == prefixed('L', pl) + prefixed('R', pr));
            } else if holds(*l, attrs) {
                assert(pruned_tags(p, attrs) == prefixed('L', pl));
            } else {
                assert(pruned_tags(p, attrs) == prefixed('R', pr));
            }
        },
    }
}

/// Decryption's recombination: the shares and coefficients (all one),
/// looked up by tag for each tag that pruning picks, add up to the secret
/// modulo the group order, whatever random scalars the sharing drew and
/// however often the policy names one attribute.
pub proof fn lemma_labelled_reconstruction(
    p: Policy,
    attrs: Seq<Seq<char>>,
    w: Seq<int>,
    secret: int,
    s: Seq<int>,
)
    requires
        shares_fit(p, secret, s),
        holds(p, attrs),
        w.len() == s.len(),
        s.len() == leaf_labels(p).len(),
        forall|i: int| 0 <= i < w.len() ==> w[i] == 1,
    ensures
        label_sum(pruned_tags(p, attrs), leaf_tags(p), w, s) % order() == secret,
{
    lemma_tag_sum_is_pruned_sum(p, attrs, w, s);
    lemma_reconstruction(p, attrs, w, secret, s);
}

/// Shares `secret` over the policy that the JSON text spells; text that
/// spells no policy gives `None`.
pub fn gen_shares_str(secret: &Scalar, policy: &str) -> (r: Option<Vec<(String, Scalar)>>)
    ensures
        r is Some <==> exists|q: Policy| spells(policy@, q),
        r is Some ==> exists|q: Policy|
            spells(policy@, q) && share_labels(r->0@) == leaf_tags(q) && shares_fit(
                q,
                secret.value(),
                share_values(r->0@),
            ),
{
    let p = parse_policy(policy)?;
    proof {
        assert(spells(policy@, p));
    }
    Some(gen_shares(secret, &p))
}

/// The recombination coefficients of the policy that the JSON text spells;
/// text that spells no policy gives `None`.
pub fn calc_coefficients_str(policy: &str) -> (r: Option<Vec<(String, Scalar)>>)
    ensures
        r is Some <==> exists|q: Policy| spells(policy@, q),
        forall|q: Policy|
            #[trigger] spells(policy@, q) && r is Some ==> share_labels(r->0@) == leaf_tags(q),
        r is Some ==> forall|i: int| 0 <= i < r->0@.len() ==> (#[trigger] r->0@[i]).1.value() == 1,
{
    let p = parse_policy(policy)?;
    proof {
        assert(spells(policy@, p));
        assert forall|q: Policy| #[trigger] spells(policy@, q) implies leaf_tags(p) == leaf_tags(
            q,
        ) by {
            lemma_tokens_same_policy(p, q);
            lemma_same_policy_alike(p, q, Seq::empty());
        }
    }
    Some(calc_coefficients(&p))
}

/// Prunes the policy that the JSON text spells against the attributes and
/// gives the tags of the leaves picked; text that spells no policy gives
/// `None`.
pub fn calc_pruned_str(attrs: &Vec<String>, policy: &str) -> (r: Option<(bool, Vec<String>)>)
    ensures
        r is Some <==> exists|q: Policy| spells(policy@, q),
        forall|q: Policy|
            #[trigger] spells(policy@, q) && r is Some ==> (r->0).0 == holds(q, names(attrs@))
                && names((r->0).1@) == pruned_tags(q, names(attrs@)),
{
    let p = parse_policy(policy)?;
    proof {
        assert(spells(policy@, p));
        assert forall|q: Policy| #[trigger] spells(policy@, q) implies holds(p, names(attrs@))
            == holds(q, names(attrs@)) && pruned_tags(p, names(attrs@)) == pruned_tags(q, names(attrs@)) by {
            lemma_tokens_same_policy(p, q);
            lemma_same_policy_alike(p, q, names(attrs@));
        }
    }
    Some(calc_pruned_tags(attrs, &p))
}

/// The same policy shares alike: the same shares give the same root share and
/// agree or not alike.
pub proof fn lemma_same_policy_shares(p: Policy, q: Policy, s: Seq<int>)
    requires
        crate::parser::same_policy(p, q),
    ensures
        root_share(p, s) == root_share(q, s),
        shares_agree(p, s) == shares_agree(q, s),
    decreases p,
{
    lemma_same_policy_alike(p, q, Seq::empty());
    match (p, q) {
        (Policy::And(l1, r1), Policy::And(l2, r2)) | (Policy::Or(l1, r1), Policy::Or(l2, r2)) => {
            lemma_same_policy_alike(*l1, *l2, Seq::empty());
            let n = leaf_count(*l1) as int;
            lemma_same_policy_shares(*l1, *l2, s.take(n));
            lemma_same_policy_shares(*r1, *r2, s.skip(n));
        },
        _ => {},
    }
}

} // verus!
