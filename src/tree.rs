use vstd::prelude::*;

use crate::comment::{Comment, CommentView};
use crate::db::{DbError, opt_view};
use crate::reaction::{Reaction, ReactionView};
use crate::user::User;

verus! {

/// The order of ids: character by character, by code point; a proper prefix comes first.
pub open spec fn id_lt(a: Seq<char>, b: Seq<char>) -> bool
    decreases a.len(),
{
    if a.len() == 0 {
        b.len() > 0
    } else if b.len() == 0 {
        false
    } else if a[0] != b[0] {
        (a[0] as int) < (b[0] as int)
    } else {
        id_lt(a.drop_first(), b.drop_first())
    }
}

pub proof fn lemma_id_lt_irreflexive(a: Seq<char>)
    ensures
        !id_lt(a, a),
    decreases a.len(),
{
    if a.len() > 0 {
        lemma_id_lt_irreflexive(a.drop_first());
    }
}

pub proof fn lemma_id_lt_transitive(a: Seq<char>, b: Seq<char>, c: Seq<char>)
    requires
        id_lt(a, b),
        id_lt(b, c),
    ensures
        id_lt(a, c),
    decreases a.len(),
{
    if a.len() > 0 && b.len() > 0 && c.len() > 0 && a[0] == b[0] && b[0] == c[0] {
        lemma_id_lt_transitive(a.drop_first(), b.drop_first(), c.drop_first());
    }
}

pub proof fn lemma_id_lt_total(a: Seq<char>, b: Seq<char>)
    ensures
        a == b || id_lt(a, b) || id_lt(b, a),
    decreases a.len(),
{
    if a.len() > 0 && b.len() > 0 {
        if a[0] == b[0] {
            lemma_id_lt_total(a.drop_first(), b.drop_first());
            if a.drop_first() == b.drop_first() {
                assert(a =~= seq![a[0]] + a.drop_first());
                assert(b =~= seq![b[0]] + b.drop_first());
            }
        } else {
            assert((a[0] as int) != (b[0] as int));
        }
    } else if a.len() == 0 && b.len() == 0 {
        assert(a =~= b);
    }
}

/// Whether `a` comes before `b`.
pub fn id_less(a: &String, b: &String) -> (r: bool)
    ensures
        r == id_lt(a@, b@),
{
    let sa = a.as_str();
    let sb = b.as_str();
    let n = sa.unicode_len();
    let m = sb.unicode_len();
    let mut i: usize = 0;
    proof {
        assert(a@.subrange(0, n as int) =~= a@);
        assert(b@.subrange(0, m as int) =~= b@);
    }
    while i < n && i < m
        invariant
            i <= n,
            i <= m,
            n == a@.len(),
            m == b@.len(),
            sa@ == a@,
            sb@ == b@,
            forall|j: int| 0 <= j < i ==> a@[j] == b@[j],
            id_lt(a@, b@) == id_lt(a@.subrange(i as int, n as int), b@.subrange(i as int, m as int)),
        decreases n - i,
    {
        let x = sa.get_char(i);
        let y = sb.get_char(i);
        if x != y {
            proof {
                let ra = a@.subrange(i as int, n as int);
                let rb = b@.subrange(i as int, m as int);
                assert(ra[0] == x && rb[0] == y);
            }
            return (x as u32) < (y as u32);
        }
        proof {
            let ra = a@.subrange(i as int, n as int);
            let rb = b@.subrange(i as int, m as int);
            assert(ra.drop_first() =~= a@.subrange(i + 1, n as int));
            assert(rb.drop_first() =~= b@.subrange(i + 1, m as int));
        }
        i = i + 1;
    }
    i < m && i == n
}

/// The comments at the positions of `order`, strictly ascending by id.
pub open spec fn sorted_by_id(cs: Seq<CommentView>, order: Seq<usize>) -> bool {
    &&& forall|i: int| 0 <= i < order.len() ==> (#[trigger] order[i]) < cs.len()
    &&& forall|i: int, j: int|
        0 <= i < j < order.len() ==> id_lt(cs[#[trigger] order[i] as int].id, cs[#[trigger] order[j] as int].id)
}

/// Two comments of `cs` share an id.
pub open spec fn has_duplicate_id(cs: Seq<CommentView>) -> bool {
    exists|i: int, j: int| 0 <= i < j < cs.len() && #[trigger] cs[i].id == #[trigger] cs[j].id
}

/// The views of a list of comments.
pub open spec fn comment_views(cs: Seq<Comment>) -> Seq<CommentView> {
    cs.map_values(|c: Comment| c@)
}

/// The positions of `comments` in ascending id order: a permutation of all of them. Two
/// comments with one id make the set inconsistent.
pub fn sort_by_id(comments: &Vec<Comment>) -> (r: Result<Vec<usize>, DbError>)
    ensures
        match r {
            Ok(order) => {
                &&& order@.len() == comments@.len()
                &&& sorted_by_id(comment_views(comments@), order@)
                &&& forall|k: usize| k < comments@.len() ==> #[trigger] order@.contains(k)
                &&& !has_duplicate_id(comment_views(comments@))
            },
            Err(e) => e is Inconsistent && has_duplicate_id(comment_views(comments@)),
        },
{
    let ghost cs = comment_views(comments@);
    let mut order: Vec<usize> = Vec::new();
    let mut k: usize = 0;
    while k < comments.len()
        invariant
            k <= comments@.len(),
            cs == comment_views(comments@),
            order@.len() == k,
            sorted_by_id(cs, order@),
            forall|i: int| 0 <= i < order@.len() ==> (#[trigger] order@[i]) < k,
            forall|j: usize| j < k ==> #[trigger] order@.contains(j),
        decreases comments@.len() - k,
    {
        let mut p: usize = 0;
        while p < order.len() && id_less(&comments[order[p]].id, &comments[k].id)
            invariant
                k < comments@.len(),
                cs == comment_views(comments@),
                p <= order@.len(),
                sorted_by_id(cs, order@),
                forall|i: int| 0 <= i < p ==> id_lt(cs[order@[i] as int].id, cs[k as int].id),
            decreases order@.len() - p,
        {
            proof {
                assert(cs[order@[p as int] as int] == comments@[order@[p as int] as int]@);
                assert(cs[k as int] == comments@[k as int]@);
            }
            p = p + 1;
        }
        proof {
            assert(cs[k as int] == comments@[k as int]@);
            if p < order@.len() {
                assert(cs[order@[p as int] as int] == comments@[order@[p as int] as int]@);
            }
        }
        if p < order.len() && comments[order[p]].id == comments[k].id {
            proof {
                let q = order@[p as int] as int;
                assert(q < k);
                assert(cs[q].id == cs[k as int].id);
            }
            return Err(DbError::Inconsistent(String::from_str("Two comments share an id.")));
        }
        let ghost before = order@;
        proof {
            if p < before.len() {
                let x = cs[k as int].id;
                let y = cs[before[p as int] as int].id;
                lemma_id_lt_total(x, y);
            }
        }
        order.insert(p, k);
        proof {
            let x = cs[k as int].id;
            assert forall|i: int, j: int| 0 <= i < j < order@.len() implies id_lt(
                cs[#[trigger] order@[i] as int].id,
                cs[#[trigger] order@[j] as int].id,
            ) by {
                if i < p && j < p {
                    assert(order@[i] == before[i] && order@[j] == before[j]);
                } else if i < p && j == p {
                } else if i < p && j > p {
                    assert(order@[i] == before[i] && order@[j] == before[j - 1]);
                    assert(id_lt(cs[before[i] as int].id, x));
                    assert(id_lt(x, cs[before[p as int] as int].id));
                    if j - 1 > p {
                        lemma_id_lt_transitive(x, cs[before[p as int] as int].id, cs[before[j - 1] as int].id);
                    }
                    lemma_id_lt_transitive(cs[before[i] as int].id, x, cs[before[j - 1] as int].id);
                } else if i == p {
                    assert(order@[j] == before[j - 1]);
                    if j - 1 > p {
                        lemma_id_lt_transitive(x, cs[before[p as int] as int].id, cs[before[j - 1] as int].id);
                    }
                } else {
                    assert(order@[i] == before[i - 1] && order@[j] == before[j - 1]);
                }
            }
            assert forall|i: int| 0 <= i < order@.len() implies (#[trigger] order@[i]) < k + 1 by {
                if i < p {
                    assert(order@[i] == before[i]);
                } else if i > p {
                    assert(order@[i] == before[i - 1]);
                }
            }
            assert forall|j: usize| j < k + 1 implies #[trigger] order@.contains(j) by {
                if j < k {
                    assert(before.contains(j));
                    let i = choose|i: int| 0 <= i < before.len() && before[i] == j;
                    if i < p {
                        assert(order@[i] == j);
                    } else {
                        assert(order@[i + 1] == j);
                    }
                } else {
                    assert(order@[p as int] == k);
                }
            }
        }
        k = k + 1;
    }
    proof {
        assert forall|i: int, j: int| 0 <= i < j < cs.len() implies #[trigger] cs[i].id != #[trigger] cs[j].id by {
            assert(order@.contains(i as usize));
            assert(order@.contains(j as usize));
            let a = choose|a: int| 0 <= a < order@.len() && order@[a] == i as usize;
            let b = choose|b: int| 0 <= b < order@.len() && order@[b] == j as usize;
            lemma_id_lt_irreflexive(cs[i].id);
            if a < b {
                assert(id_lt(cs[order@[a] as int].id, cs[order@[b] as int].id));
            } else {
                assert(id_lt(cs[order@[b] as int].id, cs[order@[a] as int].id));
            }
        }
    }
    Ok(order)
}

/// Among the first `k` positions of `order`, ascending, those of the comments that reply to
/// the comment with id `id`.
pub open spec fn replies_among(cs: Seq<CommentView>, order: Seq<usize>, id: Seq<char>, k: int) -> Seq<
    usize,
>
    decreases k,
{
    if k <= 0 {
        Seq::empty()
    } else {
        let rest = replies_among(cs, order, id, k - 1);
        if cs[order[k - 1] as int].replies_to == Some(id) {
            rest.push((k - 1) as usize)
        } else {
            rest
        }
    }
}

/// Among the first `k` positions of `order`, ascending, those of the comments that reply to
/// nothing.
pub open spec fn roots_among(cs: Seq<CommentView>, order: Seq<usize>, k: int) -> Seq<usize>
    decreases k,
{
    if k <= 0 {
        Seq::empty()
    } else {
        let rest = roots_among(cs, order, k - 1);
        if cs[order[k - 1] as int].replies_to is None {
            rest.push((k - 1) as usize)
        } else {
            rest
        }
    }
}

/// Some comment of `cs` replies to an id that no comment of `cs` has.
pub open spec fn has_orphan(cs: Seq<CommentView>) -> bool {
    exists|i: int|
        0 <= i < cs.len() && (#[trigger] cs[i].replies_to matches Some(p) && forall|j: int|
            0 <= j < cs.len() ==> cs[j].id != p)
}

/// The comment that `c` replies to, if any, is among `cs`.
pub open spec fn parent_present(cs: Seq<CommentView>, c: CommentView) -> bool {
    match c.replies_to {
        Some(p) => exists|j: int| 0 <= j < cs.len() && (#[trigger] cs[j]).id == p,
        None => true,
    }
}

/// The position in `order` of the comment with id `id`.
fn find_position(comments: &Vec<Comment>, order: &Vec<usize>, id: &String) -> (r: Option<usize>)
    requires
        sorted_by_id(comment_views(comments@), order@),
    ensures
        match r {
            Some(q) => q < order@.len() && comment_views(comments@)[order@[q as int] as int].id
                == id@,
            None => forall|q: int|
                0 <= q < order@.len() ==> comment_views(comments@)[order@[q] as int].id != id@,
        },
{
    let ghost cs = comment_views(comments@);
    let mut q: usize = 0;
    while q < order.len()
        invariant
            cs == comment_views(comments@),
            sorted_by_id(cs, order@),
            q <= order@.len(),
            forall|j: int| 0 <= j < q ==> cs[order@[j] as int].id != id@,
        decreases order@.len() - q,
    {
        proof {
            assert(order@[q as int] < comments@.len());
            assert(cs[order@[q as int] as int] == comments@[order@[q as int] as int]@);
        }
        if comments[order[q]].id == *id {
            return Some(q);
        }
        q = q + 1;
    }
    None
}

/// For each position of `order`, the positions of its replies, ascending; and the positions of
/// the comments that reply to nothing. A reply to an absent comment makes the set
/// inconsistent.
pub fn link_replies(comments: &Vec<Comment>, order: &Vec<usize>) -> (r: Result<
    (Vec<Vec<usize>>, Vec<usize>),
    DbError,
>)
    requires
        order@.len() == comments@.len(),
        sorted_by_id(comment_views(comments@), order@),
        forall|k: usize| k < comments@.len() ==> #[trigger] order@.contains(k),
    ensures
        match r {
            Ok((replies, roots)) => {
                &&& replies@.len() == order@.len()
                &&& forall|q: int|
                    0 <= q < order@.len() ==> (#[trigger] replies@[q])@ == replies_among(
                        comment_views(comments@),
                        order@,
                        comment_views(comments@)[order@[q] as int].id,
                        order@.len() as int,
                    )
                &&& roots@ == roots_among(comment_views(comments@), order@, order@.len() as int)
                &&& !has_orphan(comment_views(comments@))
            },
            Err(e) => e is Inconsistent && has_orphan(comment_views(comments@)),
        },
{
    let ghost cs = comment_views(comments@);
    let n = order.len();
    let mut p: usize = 0;
    while p < n
        invariant
            cs == comment_views(comments@),
            n == order@.len(),
            order@.len() == comments@.len(),
            sorted_by_id(cs, order@),
            forall|k: usize| k < comments@.len() ==> #[trigger] order@.contains(k),
            p <= n,
            forall|j: int| 0 <= j < p ==> parent_present(cs, cs[#[trigger] order@[j] as int]),
        decreases n - p,
    {
        let c = &comments[order[p]];
        proof {
            assert(cs[order@[p as int] as int] == c@);
        }
        match &c.replies_to {
            Some(parent) => {
                let found = find_position(comments, order, parent);
                if found.is_none() {
                    proof {
                        let i = order@[p as int] as int;
                        assert forall|j: int| 0 <= j < cs.len() implies cs[j].id != parent@ by {
                            assert(order@.contains(j as usize));
                            let q = choose|q: int| 0 <= q < order@.len() && order@[q] == j as usize;
                        }
                        assert(cs[i].replies_to == Some(parent@));
                    }
                    return Err(
                        DbError::Inconsistent(
                            String::from_str("A reply refers to a comment that does not exist."),
                        ),
                    );
                }
                proof {
                    let q = found->Some_0 as int;
                    assert(order@[q] < cs.len());
                    assert(cs[order@[q] as int].id == parent@);
                    assert(parent_present(cs, cs[order@[p as int] as int]));
                }
            },
            None => {},
        }
        p = p + 1;
    }
    proof {
        assert forall|i: int| 0 <= i < cs.len() implies !(#[trigger] cs[i].replies_to matches Some(p) && forall|j: int|
            0 <= j < cs.len() ==> cs[j].id != p) by {
            assert(order@.contains(i as usize));
            let q = choose|q: int| 0 <= q < order@.len() && order@[q] == i as usize;
            assert(parent_present(cs, cs[order@[q] as int]));
        }
    }
    let mut roots: Vec<usize> = Vec::new();
    let mut replies: Vec<Vec<usize>> = Vec::new();
    let mut q: usize = 0;
    while q < n
        invariant
            cs == comment_views(comments@),
            n == order@.len(),
            order@.len() == comments@.len(),
            sorted_by_id(cs, order@),
            q <= n,
            !has_orphan(cs),
            replies@.len() == q,
            forall|j: int|
                0 <= j < q ==> (#[trigger] replies@[j])@ == replies_among(
                    cs,
                    order@,
                    cs[order@[j] as int].id,
                    n as int,
                ),
        decreases n - q,
    {
        let id = &comments[order[q]].id;
        proof {
            assert(cs[order@[q as int] as int] == comments@[order@[q as int] as int]@);
        }
        let mut children: Vec<usize> = Vec::new();
        let mut p: usize = 0;
        while p < n
            invariant
                cs == comment_views(comments@),
                n == order@.len(),
                order@.len() == comments@.len(),
                sorted_by_id(cs, order@),
                p <= n,
                children@ == replies_among(cs, order@, id@, p as int),
            decreases n - p,
        {
            let c = &comments[order[p]];
            proof {
                assert(cs[order@[p as int] as int] == c@);
            }
            let is_child = match &c.replies_to {
                Some(parent) => *parent == *id,
                None => false,
            };
            if is_child {
                children.push(p);
            }
            p = p + 1;
        }
        let ghost before = replies@;
        replies.push(children);
        proof {
            assert forall|j: int| 0 <= j < q + 1 implies (#[trigger] replies@[j])@ == replies_among(
                cs,
                order@,
                cs[order@[j] as int].id,
                n as int,
            ) by {
                if j < q {
                    assert(replies@[j] == before[j]);
                }
            }
        }
        q = q + 1;
    }
    let mut p: usize = 0;
    while p < n
        invariant
            cs == comment_views(comments@),
            n == order@.len(),
            order@.len() == comments@.len(),
            sorted_by_id(cs, order@),
            p <= n,
            !has_orphan(cs),
            roots@ == roots_among(cs, order@, p as int),
        decreases n - p,
    {
        proof {
            assert(cs[order@[p as int] as int] == comments@[order@[p as int] as int]@);
        }
        if comments[order[p]].replies_to.is_none() {
            roots.push(p);
        }
        p = p + 1;
    }
    Ok((replies, roots))
}

/// The views of a list of reactions.
pub open spec fn reaction_views(rs: Seq<Reaction>) -> Seq<ReactionView> {
    rs.map_values(|r: Reaction| r@)
}

/// How many reactions of `rs` are of type `kind` on comment `comment`.
pub open spec fn count_reactions(rs: Seq<ReactionView>, comment: Seq<char>, kind: Seq<char>) -> nat
    decreases rs.len(),
{
    if rs.len() == 0 {
        0
    } else {
        count_reactions(rs.drop_last(), comment, kind) + if rs.last().comment_id == comment
            && rs.last().reaction_type == kind {
            1nat
        } else {
            0nat
        }
    }
}

/// The types, in order, of the reactions of `rs` on comment `comment` by `requester`.
pub open spec fn own_reactions(
    rs: Seq<ReactionView>,
    comment: Seq<char>,
    requester: Option<Seq<char>>,
) -> Seq<Seq<char>>
    decreases rs.len(),
{
    if rs.len() == 0 {
        Seq::empty()
    } else {
        let rest = own_reactions(rs.drop_last(), comment, requester);
        if rs.last().comment_id == comment && requester == Some(rs.last().user_id) {
            rest.push(rs.last().reaction_type)
        } else {
            rest
        }
    }
}

/// `counts` maps each reaction type present on comment `comment` to its number of reactions,
/// once each, and names no other type.
pub open spec fn counts_match(
    counts: Seq<(String, usize)>,
    rs: Seq<ReactionView>,
    comment: Seq<char>,
) -> bool {
    &&& forall|i: int, j: int|
        0 <= i < j < counts.len() ==> (#[trigger] counts[i]).0@ != (#[trigger] counts[j]).0@
    &&& forall|i: int|
        0 <= i < counts.len() ==> (#[trigger] counts[i]).1 == count_reactions(
            rs,
            comment,
            counts[i].0@,
        ) && counts[i].1 > 0
    &&& forall|kind: Seq<char>|
        #[trigger] count_reactions(rs, comment, kind) > 0 ==> exists|i: int|
            0 <= i < counts.len() && (#[trigger] counts[i]).0@ == kind
}

/// The reactions on comment `comment`: the number of each type, and the types that
/// `requester` applied.
pub fn summarize_reactions(
    reactions: &Vec<Reaction>,
    comment: &String,
    requester: &Option<String>,
) -> (r: (Vec<(String, usize)>, Vec<String>))
    ensures
        counts_match(r.0@, reaction_views(reactions@), comment@),
        r.1@.map_values(|t: String| t@) == own_reactions(
            reaction_views(reactions@),
            comment@,
            opt_view(*requester),
        ),
{
    let ghost rs = reaction_views(reactions@);
    let mut counts: Vec<(String, usize)> = Vec::new();
    let mut mine: Vec<String> = Vec::new();
    let mut k: usize = 0;
    while k < reactions.len()
        invariant
            k <= reactions@.len(),
            rs == reaction_views(reactions@),
            counts_match(counts@, rs.take(k as int), comment@),
            forall|i: int| 0 <= i < counts@.len() ==> (#[trigger] counts@[i]).1 <= k,
            mine@.map_values(|t: String| t@) == own_reactions(
                rs.take(k as int),
                comment@,
                opt_view(*requester),
            ),
        decreases reactions@.len() - k,
    {
        let reaction = &reactions[k];
        let ghost pre = rs.take(k as int);
        let ghost post = rs.take(k + 1);
        proof {
            assert(post.drop_last() =~= pre);
            assert(post.last() == reaction@);
        }
        if reaction.comment_id == *comment {
            let mut i: usize = 0;
            while i < counts.len() && counts[i].0 != reaction.reaction_type
                invariant
                    i <= counts@.len(),
                    forall|j: int| 0 <= j < i ==> (#[trigger] counts@[j]).0@ != reaction.reaction_type@,
                decreases counts@.len() - i,
            {
                i = i + 1;
            }
            let ghost before = counts@;
            let kind = reaction.reaction_type.clone();
            if i < counts.len() {
                let c = counts[i].1;
                counts.set(i, (kind, c + 1));
            } else {
                counts.push((kind, 1));
            }
            proof {
                let t = reaction.reaction_type@;
                assert forall|x: Seq<char>| #[trigger] count_reactions(post, comment@, x) == count_reactions(pre, comment@, x) + if x == t { 1nat } else { 0nat } by {
                }
                assert forall|a: int, b: int| 0 <= a < b < counts@.len() implies (#[trigger] counts@[a]).0@ != (#[trigger] counts@[b]).0@ by {
                    if b == before.len() {
                        assert(counts@[a] == before[a]);
                    } else if a == i || b == i {
                    } else {
                        assert(counts@[a] == before[a] && counts@[b] == before[b]);
                    }
                }
                assert forall|a: int| 0 <= a < counts@.len() implies (#[trigger] counts@[a]).1 == count_reactions(post, comment@, counts@[a].0@) && counts@[a].1 > 0 by {
                    if a < before.len() && a != i {
                        assert(counts@[a] == before[a]);
                    }
                    if a == before.len() {
                        if count_reactions(pre, comment@, t) > 0 {
                            let j = choose|j: int| 0 <= j < before.len() && (#[trigger] before[j]).0@ == t;
                        }
                    }
                }
                assert forall|x: Seq<char>| #[trigger] count_reactions(post, comment@, x) > 0 implies exists|a: int| 0 <= a < counts@.len() && (#[trigger] counts@[a]).0@ == x by {
                    if x == t {
                        if i < before.len() {
                            assert(counts@[i as int].0@ == x);
                        } else {
                            assert(counts@[before.len() as int].0@ == x);
                        }
                    } else {
                        let j = choose|j: int| 0 <= j < before.len() && (#[trigger] before[j]).0@ == x;
                        assert(counts@[j].0@ == x);
                    }
                }
                assert forall|a: int| 0 <= a < counts@.len() implies (#[trigger] counts@[a]).1 <= k + 1 by {
                    if a < before.len() && a != i {
                        assert(counts@[a] == before[a]);
                    }
                }
            }
            let own = match requester {
                Some(u) => *u == reaction.user_id,
                None => false,
            };
            if own {
                let ghost prev = mine@;
                mine.push(reaction.reaction_type.clone());
                proof {
                    assert(mine@.map_values(|t: String| t@) =~= prev.map_values(|t: String| t@).push(reaction.reaction_type@));
                }
            }
        } else {
            proof {
                assert forall|x: Seq<char>| #[trigger] count_reactions(post, comment@, x) == count_reactions(pre, comment@, x) by {
                }
            }
        }
        k = k + 1;
    }
    proof {
        assert(rs.take(k as int) =~= rs);
    }
    (counts, mine)
}

/// What a listing shows of a comment's author.
pub struct Author {
    pub id: String,
    pub name: String,
    pub picture_url: String,
}

/// The first position in `users` of a user with id `id`.
pub open spec fn first_user(users: Seq<User>, id: Seq<char>) -> Option<int>
    decreases users.len(),
{
    if users.len() == 0 {
        None
    } else {
        match first_user(users.drop_last(), id) {
            Some(i) => Some(i),
            None => if users.last().id@ == id {
                Some(users.len() - 1)
            } else {
                None
            },
        }
    }
}

/// `a` shows the author `user_id` as the first user of `users` with that id shows it; no
/// author where the comment has none or no such user was found.
pub open spec fn author_matches(users: Seq<User>, user_id: Option<Seq<char>>, a: Option<Author>) -> bool {
    match user_id {
        None => a is None,
        Some(id) => match first_user(users, id) {
            None => a is None,
            Some(i) => a matches Some(x) && x.id@ == users[i].id@ && x.name@ == users[i].name@
                && x.picture_url@ == users[i].picture_url@,
        },
    }
}

/// The author to show for a comment by `user_id`.
pub fn find_author(users: &Vec<User>, user_id: &Option<String>) -> (r: Option<Author>)
    ensures
        author_matches(users@, opt_view(*user_id), r),
{
    match user_id {
        None => None,
        Some(id) => {
            let mut i: usize = 0;
            while i < users.len()
                invariant
                    i <= users@.len(),
                    opt_view(*user_id) == Some(id@),
                    first_user(users@.take(i as int), id@) is None,
                decreases users@.len() - i,
            {
                proof {
                    assert(users@.take(i + 1).drop_last() =~= users@.take(i as int));
                }
                if users[i].id == *id {
                    proof {
                        assert(users@.take(i + 1).last() == users@[i as int]);
                        assert(first_user(users@.take(i + 1), id@) == Some(i as int));
                        lemma_first_user_prefix(users@, id@, i as int + 1);
                    }
                    let a = Author {
                        id: users[i].id.clone(),
                        name: users[i].name.clone(),
                        picture_url: users[i].picture_url.clone(),
                    };
                    proof {
                        assert(a.id@ == users@[i as int].id@);
                        assert(a.name@ == users@[i as int].name@);
                        assert(a.picture_url@ == users@[i as int].picture_url@);
                        assert(opt_view(*user_id) == Some(id@));
                    }
                    return Some(a);
                }
                i = i + 1;
            }
            proof {
                assert(users@.take(i as int) =~= users@);
            }
            None
        },
    }
}

/// Where a prefix of `users` holds a user with id `id`, the whole list finds the same one.
proof fn lemma_first_user_prefix(users: Seq<User>, id: Seq<char>, k: int)
    requires
        0 <= k <= users.len(),
        first_user(users.take(k), id) is Some,
    ensures
        first_user(users, id) == first_user(users.take(k), id),
    decreases users.len() - k,
{
    if k < users.len() {
        assert(users.take(k + 1).drop_last() =~= users.take(k));
        lemma_first_user_prefix(users, id, k + 1);
    } else {
        assert(users.take(k) =~= users);
    }
}

/// A comment as a listing shows it: its replies nested, its reactions counted by type, and
/// the types that the requester applied.
pub struct CommentNode {
    pub id: String,
    pub body: String,
    pub user: Option<Author>,
    pub replies: Vec<CommentNode>,
    pub reactions: Vec<(String, usize)>,
    pub user_reactions: Vec<String>,
}

/// What a listing is built from: the comments, their positions in id order and the replies of
/// each position, the reactions, the users found, and who asks.
pub struct Forest {
    pub cs: Seq<CommentView>,
    pub order: Seq<usize>,
    pub replies: Seq<Seq<usize>>,
    pub rs: Seq<ReactionView>,
    pub users: Seq<User>,
    pub requester: Option<Seq<char>>,
}

/// `node` shows comment `c` of the forest `f`, without regard to its replies.
pub open spec fn shows(f: Forest, c: CommentView, node: CommentNode) -> bool {
    &&& node.id@ == c.id
    &&& node.body@ == c.body
    &&& author_matches(f.users, c.user_id, node.user)
    &&& counts_match(node.reactions@, f.rs, c.id)
    &&& node.user_reactions@.map_values(|t: String| t@) == own_reactions(f.rs, c.id, f.requester)
}

/// `node` shows the comment at position `p` and, down to depth `fuel`, its replies in order.
pub open spec fn renders(f: Forest, p: int, node: CommentNode, fuel: nat) -> bool
    decreases fuel,
{
    &&& shows(f, f.cs[f.order[p] as int], node)
    &&& if fuel == 0 {
        node.replies@.len() == 0
    } else {
        &&& node.replies@.len() == f.replies[p].len()
        &&& forall|i: int|
            0 <= i < node.replies@.len() ==> renders(
                f,
                f.replies[p][i] as int,
                #[trigger] node.replies@[i],
                (fuel - 1) as nat,
            )
    }
}

/// The forest's positions and links are in range.
pub open spec fn forest_wf(f: Forest) -> bool {
    &&& f.replies.len() == f.order.len()
    &&& forall|q: int| 0 <= q < f.order.len() ==> (#[trigger] f.order[q]) < f.cs.len()
    &&& forall|q: int, i: int|
        0 <= q < f.replies.len() && 0 <= i < f.replies[q].len() ==> (#[trigger] f.replies[q][i])
            < f.order.len()
}

fn render(
    comments: &Vec<Comment>,
    reactions: &Vec<Reaction>,
    users: &Vec<User>,
    requester: &Option<String>,
    order: &Vec<usize>,
    replies: &Vec<Vec<usize>>,
    p: usize,
    fuel: usize,
    Ghost(f): Ghost<Forest>,
) -> (node: CommentNode)
    requires
        f.cs == comment_views(comments@),
        f.order == order@,
        f.replies == replies@.map_values(|v: Vec<usize>| v@),
        f.rs == reaction_views(reactions@),
        f.users == users@,
        f.requester == opt_view(*requester),
        forest_wf(f),
        p < order@.len(),
    ensures
        renders(f, p as int, node, fuel as nat),
    decreases fuel,
{
    let c = &comments[order[p]];
    proof {
        assert(f.cs[order@[p as int] as int] == c@);
    }
    let (counts, mine) = summarize_reactions(reactions, &c.id, requester);
    let user = find_author(users, &c.user_id);
    let mut children: Vec<CommentNode> = Vec::new();
    if fuel > 0 {
        let kids = &replies[p];
        proof {
            assert(f.replies[p as int] == kids@);
        }
        let mut i: usize = 0;
        while i < kids.len()
            invariant
                f.cs == comment_views(comments@),
                f.order == order@,
                f.replies == replies@.map_values(|v: Vec<usize>| v@),
                f.rs == reaction_views(reactions@),
                f.users == users@,
                f.requester == opt_view(*requester),
                forest_wf(f),
                p < order@.len(),
                fuel > 0,
                f.replies[p as int] == kids@,
                i <= kids@.len(),
                children@.len() == i,
                forall|j: int|
                    0 <= j < i ==> renders(
                        f,
                        f.replies[p as int][j] as int,
                        #[trigger] children@[j],
                        (fuel - 1) as nat,
                    ),
            decreases kids@.len() - i,
        {
            let child = render(
                comments,
                reactions,
                users,
                requester,
                order,
                replies,
                kids[i],
                fuel - 1,
                Ghost(f),
            );
            children.push(child);
            i = i + 1;
        }
    }
    CommentNode {
        id: c.id.clone(),
        body: c.body.clone(),
        user,
        replies: children,
        reactions: counts,
        user_reactions: mine,
    }
}

/// The forest that `order` and `replies` make of the inputs.
pub open spec fn forest_of(
    comments: Seq<Comment>,
    reactions: Seq<Reaction>,
    users: Seq<User>,
    requester: Option<String>,
    order: Seq<usize>,
    replies: Seq<Vec<usize>>,
) -> Forest {
    Forest {
        cs: comment_views(comments),
        order,
        replies: replies.map_values(|v: Vec<usize>| v@),
        rs: reaction_views(reactions),
        users,
        requester: opt_view(requester),
    }
}

/// `nodes` is the listing of the inputs through the id order `order` and the reply lists
/// `replies`: `order` lists every comment once, ascending by id; `replies` holds, for each
/// position, the positions of its replies, ascending; and `nodes` renders, in order, the
/// positions of the comments that reply to nothing, as deep as there are comments.
pub open spec fn lists(
    comments: Seq<Comment>,
    reactions: Seq<Reaction>,
    users: Seq<User>,
    requester: Option<String>,
    order: Seq<usize>,
    replies: Seq<Vec<usize>>,
    nodes: Seq<CommentNode>,
) -> bool {
    let f = forest_of(comments, reactions, users, requester, order, replies);
    let roots = roots_among(f.cs, order, order.len() as int);
    &&& order.len() == comments.len()
    &&& sorted_by_id(f.cs, order)
    &&& forall|k: usize| k < comments.len() ==> #[trigger] order.contains(k)
    &&& forest_wf(f)
    &&& forall|q: int|
        0 <= q < order.len() ==> #[trigger] f.replies[q] == replies_among(
            f.cs,
            order,
            f.cs[order[q] as int].id,
            order.len() as int,
        )
    &&& nodes.len() == roots.len()
    &&& forall|i: int|
        0 <= i < nodes.len() ==> renders(f, roots[i] as int, #[trigger] nodes[i], comments.len() as nat)
}

/// `nodes` is the listing of the inputs through some id order and reply lists; see `lists`.
pub open spec fn listed(
    comments: Seq<Comment>,
    reactions: Seq<Reaction>,
    users: Seq<User>,
    requester: Option<String>,
    nodes: Seq<CommentNode>,
) -> bool {
    exists|o: Seq<usize>, rp: Seq<Vec<usize>>|
        #[trigger] lists(comments, reactions, users, requester, o, rp, nodes)
}

/// The reply forest of one resource's comments: the comments that reply to nothing, in
/// ascending id order, each with its replies nested in ascending id order, with the reactions
/// on each counted by type and the types that `requester` applied, and with its author where
/// the user was found. Reactions to absent comments are ignored. A reply to an absent comment,
/// or two comments with one id, make the set inconsistent.
pub fn build_comment_tree(
    comments: &Vec<Comment>,
    reactions: &Vec<Reaction>,
    users: &Vec<User>,
    requester: &Option<String>,
) -> (r: Result<Vec<CommentNode>, DbError>)
    ensures
        r is Ok ==> listed(comments@, reactions@, users@, *requester, r->Ok_0@),
        r is Err ==> r->Err_0 is Inconsistent && (has_duplicate_id(comment_views(comments@))
            || has_orphan(comment_views(comments@))),
        (has_duplicate_id(comment_views(comments@)) || has_orphan(comment_views(comments@)))
            ==> r is Err,
{
    let order = match sort_by_id(comments) {
        Ok(o) => o,
        Err(e) => return Err(e),
    };
    let (replies, roots) = match link_replies(comments, &order) {
        Ok(x) => x,
        Err(e) => return Err(e),
    };
    let ghost f = forest_of(comments@, reactions@, users@, *requester, order@, replies@);
    proof {
        assert forall|q: int| 0 <= q < order@.len() implies #[trigger] f.replies[q] == replies_among(
            f.cs,
            order@,
            f.cs[order@[q] as int].id,
            order@.len() as int,
        ) by {
            assert(f.replies[q] == replies@[q]@);
        }
        assert forall|q: int, i: int|
            0 <= q < f.replies.len() && 0 <= i < f.replies[q].len() implies (#[trigger] f.replies[q][i])
                < f.order.len() by {
            lemma_replies_among_bounded(f.cs, order@, f.cs[order@[q] as int].id, order@.len() as int, i);
        }
    }
    let mut nodes: Vec<CommentNode> = Vec::new();
    let mut i: usize = 0;
    while i < roots.len()
        invariant
            f == forest_of(comments@, reactions@, users@, *requester, order@, replies@),
            forest_wf(f),
            roots@ == roots_among(f.cs, order@, order@.len() as int),
            i <= roots@.len(),
            nodes@.len() == i,
            forall|j: int|
                0 <= j < i ==> renders(f, roots@[j] as int, #[trigger] nodes@[j], comments@.len() as nat),
            order@.len() == comments@.len(),
        decreases roots@.len() - i,
    {
        proof {
            lemma_roots_among_bounded(f.cs, order@, order@.len() as int, i as int);
        }
        let node = render(
            comments,
            reactions,
            users,
            requester,
            &order,
            &replies,
            roots[i],
            comments.len(),
            Ghost(f),
        );
        nodes.push(node);
        i = i + 1;
    }
    proof {
        assert(lists(comments@, reactions@, users@, *requester, order@, replies@, nodes@));
        lemma_lists_witness(comments@, reactions@, users@, *requester, order@, replies@, nodes@);
    }
    Ok(nodes)
}

proof fn lemma_lists_witness(
    comments: Seq<Comment>,
    reactions: Seq<Reaction>,
    users: Seq<User>,
    requester: Option<String>,
    order: Seq<usize>,
    replies: Seq<Vec<usize>>,
    nodes: Seq<CommentNode>,
)
    requires
        lists(comments, reactions, users, requester, order, replies, nodes),
    ensures
        listed(comments, reactions, users, requester, nodes),
{
}

proof fn lemma_replies_among_bounded(cs: Seq<CommentView>, order: Seq<usize>, id: Seq<char>, k: int, i: int)
    requires
        0 <= i < replies_among(cs, order, id, k).len(),
    ensures
        replies_among(cs, order, id, k)[i] < k,
    decreases k,
{
    if k > 0 {
        let rest = replies_among(cs, order, id, k - 1);
        if i < rest.len() {
            lemma_replies_among_bounded(cs, order, id, k - 1, i);
        }
    }
}

proof fn lemma_roots_among_bounded(cs: Seq<CommentView>, order: Seq<usize>, k: int, i: int)
    requires
        0 <= i < roots_among(cs, order, k).len(),
    ensures
        roots_among(cs, order, k)[i] < k,
    decreases k,
{
    if k > 0 {
        let rest = roots_among(cs, order, k - 1);
        if i < rest.len() {
            lemma_roots_among_bounded(cs, order, k - 1, i);
        }
    }
}

} // verus!
