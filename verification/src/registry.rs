//! Subscription registry: the invariant-bearing aggregate that maps clients
//! to interests and interests back to clients.
//!
//! Four sets hold the vanilla subscribers, one per broadcast category. The
//! object subscriptions are held twice: a forward index from client to
//! object identifier and a reverse index from object identifier to client.
//! Well-formedness ([`Subscriptions::wf`]) demands that the two indices are
//! mirror images of each other at all times; every operation preserves it.

use vstd::prelude::*;

use crate::scanner::get_objects;
use crate::scanner::objects_of;
use crate::types::Candidate;
use crate::types::Client;
use crate::types::WsPayload;

verus! {

broadcast use vstd::seq_lib::lemma_seq_contains_after_push;

/// No client appears twice.
pub open spec fn distinct_clients(s: Seq<Client>) -> bool {
    forall|i: int, j: int| 0 <= i < j < s.len() ==> s[i] != s[j]
}

/// The character sequences of a list of strings, in order.
pub open spec fn strs_views(l: Seq<String>) -> Seq<Seq<char>> {
    l.map_values(|s: String| s@)
}

/// Entry `j` of the forward index is the pair of client `c` and object `o`.
pub open spec fn fwd_pair_at(p: Seq<(Client, String)>, j: int, c: Client, o: Seq<char>) -> bool {
    p[j].0 == c && p[j].1@ == o
}

/// The forward index holds the pair of client `c` and object `o`.
pub open spec fn fwd_has_in(p: Seq<(Client, String)>, c: Client, o: Seq<char>) -> bool {
    exists|j: int| 0 <= j < p.len() && #[trigger] fwd_pair_at(p, j, c, o)
}

/// No client/object pair appears twice in the forward index.
pub open spec fn fwd_distinct(p: Seq<(Client, String)>) -> bool {
    forall|j1: int, j2: int|
        #![trigger p[j1], p[j2]]
        0 <= j1 < j2 < p.len() ==> !(p[j1].0 == p[j2].0 && p[j1].1@ == p[j2].1@)
}

/// Entry `j` of the reverse index is the pair of object `o` and client `c`.
pub open spec fn rvs_pair_at(p: Seq<(String, Client)>, j: int, o: Seq<char>, c: Client) -> bool {
    p[j].0@ == o && p[j].1 == c
}

/// The reverse index holds the pair of object `o` and client `c`.
pub open spec fn rvs_has_in(p: Seq<(String, Client)>, o: Seq<char>, c: Client) -> bool {
    exists|j: int| 0 <= j < p.len() && #[trigger] rvs_pair_at(p, j, o, c)
}

/// No object/client pair appears twice in the reverse index.
pub open spec fn rvs_distinct(p: Seq<(String, Client)>) -> bool {
    forall|j1: int, j2: int|
        #![trigger p[j1], p[j2]]
        0 <= j1 < j2 < p.len() ==> !(p[j1].0@ == p[j2].0@ && p[j1].1 == p[j2].1)
}

/// The objects client `c` is subscribed to, in the order their pairs stand
/// in the forward index, which is insertion order.
pub open spec fn objs_in(p: Seq<(Client, String)>, c: Client) -> Seq<Seq<char>>
    decreases p.len(),
{
    if p.len() == 0 {
        Seq::empty()
    } else {
        let rest = objs_in(p.drop_last(), c);
        if p.last().0 == c {
            rest.push(p.last().1@)
        } else {
            rest
        }
    }
}

/// Removing one entry of a distinct forward index removes exactly that
/// entry's pair.
proof fn lemma_fwd_remove_one(q: Seq<(Client, String)>, j0: int)
    requires
        fwd_distinct(q),
        0 <= j0 < q.len(),
    ensures
        fwd_distinct(q.remove(j0)),
        forall|c2: Client, o2: Seq<char>|
            #[trigger] fwd_has_in(q.remove(j0), c2, o2) <==> (fwd_has_in(q, c2, o2) && !(c2
                == q[j0].0 && o2 == q[j0].1@)),
{
    let r = q.remove(j0);
    assert forall|c2: Client, o2: Seq<char>| #[trigger] fwd_has_in(r, c2, o2) implies (fwd_has_in(
        q,
        c2,
        o2,
    ) && !(c2 == q[j0].0 && o2 == q[j0].1@)) by {
        let j = choose|j: int| 0 <= j < r.len() && #[trigger] fwd_pair_at(r, j, c2, o2);
        let jq: int = if j < j0 {
            j
        } else {
            j + 1
        };
        assert(r[j] == q[jq]);
        assert(fwd_pair_at(q, jq, c2, o2));
        if c2 == q[j0].0 && o2 == q[j0].1@ {
            assert(q[jq].0 == q[j0].0 && q[jq].1@ == q[j0].1@);
            assert(false);
        }
    }
    assert forall|c2: Client, o2: Seq<char>|
        fwd_has_in(q, c2, o2) && !(c2 == q[j0].0 && o2 == q[j0].1@) implies #[trigger] fwd_has_in(
        r,
        c2,
        o2,
    ) by {
        let j = choose|j: int| 0 <= j < q.len() && #[trigger] fwd_pair_at(q, j, c2, o2);
        assert(j != j0);
        if j < j0 {
            assert(r[j] == q[j]);
            assert(fwd_pair_at(r, j, c2, o2));
        } else {
            assert(r[j - 1] == q[j]);
            assert(fwd_pair_at(r, j - 1, c2, o2));
        }
    }
    assert forall|j1: int, j2: int|
        #![trigger r[j1], r[j2]]
        0 <= j1 < j2 < r.len() implies !(r[j1].0 == r[j2].0 && r[j1].1@ == r[j2].1@) by {
        let k1: int = if j1 < j0 {
            j1
        } else {
            j1 + 1
        };
        let k2: int = if j2 < j0 {
            j2
        } else {
            j2 + 1
        };
        assert(r[j1] == q[k1]);
        assert(r[j2] == q[k2]);
    }
}

/// Removing one entry of a distinct reverse index removes exactly that
/// entry's pair.
proof fn lemma_rvs_remove_one(q: Seq<(String, Client)>, j0: int)
    requires
        rvs_distinct(q),
        0 <= j0 < q.len(),
    ensures
        rvs_distinct(q.remove(j0)),
        forall|o2: Seq<char>, c2: Client|
            #[trigger] rvs_has_in(q.remove(j0), o2, c2) <==> (rvs_has_in(q, o2, c2) && !(o2
                == q[j0].0@ && c2 == q[j0].1)),
{
    let r = q.remove(j0);
    assert forall|o2: Seq<char>, c2: Client| #[trigger] rvs_has_in(r, o2, c2) implies (rvs_has_in(
        q,
        o2,
        c2,
    ) && !(o2 == q[j0].0@ && c2 == q[j0].1)) by {
        let j = choose|j: int| 0 <= j < r.len() && #[trigger] rvs_pair_at(r, j, o2, c2);
        let jq: int = if j < j0 {
            j
        } else {
            j + 1
        };
        assert(r[j] == q[jq]);
        assert(rvs_pair_at(q, jq, o2, c2));
        if o2 == q[j0].0@ && c2 == q[j0].1 {
            assert(q[jq].0@ == q[j0].0@ && q[jq].1 == q[j0].1);
            assert(false);
        }
    }
    assert forall|o2: Seq<char>, c2: Client|
        rvs_has_in(q, o2, c2) && !(o2 == q[j0].0@ && c2 == q[j0].1) implies #[trigger] rvs_has_in(
        r,
        o2,
        c2,
    ) by {
        let j = choose|j: int| 0 <= j < q.len() && #[trigger] rvs_pair_at(q, j, o2, c2);
        assert(j != j0);
        if j < j0 {
            assert(r[j] == q[j]);
            assert(rvs_pair_at(r, j, o2, c2));
        } else {
            assert(r[j - 1] == q[j]);
            assert(rvs_pair_at(r, j - 1, o2, c2));
        }
    }
    assert forall|j1: int, j2: int|
        #![trigger r[j1], r[j2]]
        0 <= j1 < j2 < r.len() implies !(r[j1].0@ == r[j2].0@ && r[j1].1 == r[j2].1) by {
        let k1: int = if j1 < j0 {
            j1
        } else {
            j1 + 1
        };
        let k2: int = if j2 < j0 {
            j2
        } else {
            j2 + 1
        };
        assert(r[j1] == q[k1]);
        assert(r[j2] == q[k2]);
    }
}

/// Appending a fresh pair to a distinct forward index adds exactly that
/// pair and keeps the index distinct.
proof fn lemma_fwd_push(q: Seq<(Client, String)>, c: Client, o: String)
    requires
        fwd_distinct(q),
        !fwd_has_in(q, c, o@),
    ensures
        fwd_distinct(q.push((c, o))),
        forall|c2: Client, o2: Seq<char>|
            #[trigger] fwd_has_in(q.push((c, o)), c2, o2) <==> (fwd_has_in(q, c2, o2) || (c2 == c
                && o2 == o@)),
{
    let r = q.push((c, o));
    assert forall|c2: Client, o2: Seq<char>| #[trigger] fwd_has_in(r, c2, o2) implies (fwd_has_in(
        q,
        c2,
        o2,
    ) || (c2 == c && o2 == o@)) by {
        let j = choose|j: int| 0 <= j < r.len() && #[trigger] fwd_pair_at(r, j, c2, o2);
        if j < q.len() {
            assert(r[j] == q[j]);
            assert(fwd_pair_at(q, j, c2, o2));
        }
    }
    assert forall|c2: Client, o2: Seq<char>|
        fwd_has_in(q, c2, o2) || (c2 == c && o2 == o@) implies #[trigger] fwd_has_in(
        r,
        c2,
        o2,
    ) by {
        if fwd_has_in(q, c2, o2) {
            let j = choose|j: int| 0 <= j < q.len() && #[trigger] fwd_pair_at(q, j, c2, o2);
            assert(r[j] == q[j]);
            assert(fwd_pair_at(r, j, c2, o2));
        } else {
            assert(fwd_pair_at(r, q.len() as int, c2, o2));
        }
    }
    assert forall|j1: int, j2: int|
        #![trigger r[j1], r[j2]]
        0 <= j1 < j2 < r.len() implies !(r[j1].0 == r[j2].0 && r[j1].1@ == r[j2].1@) by {
        if j2 == q.len() {
            assert(r[j1] == q[j1]);
            if q[j1].0 == c && q[j1].1@ == o@ {
                assert(fwd_pair_at(q, j1, c, o@));
                assert(false);
            }
        } else {
            assert(r[j1] == q[j1]);
            assert(r[j2] == q[j2]);
        }
    }
}

/// Appending a fresh pair to a distinct reverse index adds exactly that
/// pair and keeps the index distinct.
proof fn lemma_rvs_push(q: Seq<(String, Client)>, o: String, c: Client)
    requires
        rvs_distinct(q),
        !rvs_has_in(q, o@, c),
    ensures
        rvs_distinct(q.push((o, c))),
        forall|o2: Seq<char>, c2: Client|
            #[trigger] rvs_has_in(q.push((o, c)), o2, c2) <==> (rvs_has_in(q, o2, c2) || (o2 == o@
                && c2 == c)),
{
    let r = q.push((o, c));
    assert forall|o2: Seq<char>, c2: Client| #[trigger] rvs_has_in(r, o2, c2) implies (rvs_has_in(
        q,
        o2,
        c2,
    ) || (o2 == o@ && c2 == c)) by {
        let j = choose|j: int| 0 <= j < r.len() && #[trigger] rvs_pair_at(r, j, o2, c2);
        if j < q.len() {
            assert(r[j] == q[j]);
            assert(rvs_pair_at(q, j, o2, c2));
        }
    }
    assert forall|o2: Seq<char>, c2: Client|
        rvs_has_in(q, o2, c2) || (o2 == o@ && c2 == c) implies #[trigger] rvs_has_in(
        r,
        o2,
        c2,
    ) by {
        if rvs_has_in(q, o2, c2) {
            let j = choose|j: int| 0 <= j < q.len() && #[trigger] rvs_pair_at(q, j, o2, c2);
            assert(r[j] == q[j]);
            assert(rvs_pair_at(r, j, o2, c2));
        } else {
            assert(rvs_pair_at(r, q.len() as int, o2, c2));
        }
    }
    assert forall|j1: int, j2: int|
        #![trigger r[j1], r[j2]]
        0 <= j1 < j2 < r.len() implies !(r[j1].0@ == r[j2].0@ && r[j1].1 == r[j2].1) by {
        if j2 == q.len() {
            assert(r[j1] == q[j1]);
            if q[j1].0@ == o@ && q[j1].1 == c {
                assert(rvs_pair_at(q, j1, o@, c));
                assert(false);
            }
        } else {
            assert(r[j1] == q[j1]);
            assert(r[j2] == q[j2]);
        }
    }
}

/// A client with no pair in the forward index has no listed objects.
proof fn lemma_objs_in_empty(p: Seq<(Client, String)>, c: Client)
    requires
        forall|o2: Seq<char>| !fwd_has_in(p, c, o2),
    ensures
        objs_in(p, c) == Seq::<Seq<char>>::empty(),
    decreases p.len(),
{
    if p.len() > 0 {
        if p.last().0 == c {
            assert(fwd_pair_at(p, p.len() - 1, c, p.last().1@));
            assert(fwd_has_in(p, c, p.last().1@));
            assert(false);
        }
        assert forall|o2: Seq<char>| !fwd_has_in(p.drop_last(), c, o2) by {
            if fwd_has_in(p.drop_last(), c, o2) {
                let j = choose|j: int|
                    0 <= j < p.drop_last().len() && #[trigger] fwd_pair_at(p.drop_last(), j, c, o2);
                assert(p.drop_last()[j] == p[j]);
                assert(fwd_pair_at(p, j, c, o2));
                assert(fwd_has_in(p, c, o2));
            }
        }
        lemma_objs_in_empty(p.drop_last(), c);
    }
}

/// True if `v` holds client `c`.
#[verifier::loop_isolation(false)]
fn client_vec_contains(v: &Vec<Client>, c: Client) -> (r: bool)
    ensures
        r == v@.contains(c),
{
    let mut k: usize = 0;
    while k < v.len()
        invariant
            k <= v.len(),
            forall|j: int| 0 <= j < k ==> v@[j] != c,
        decreases v.len() - k,
    {
        if v[k] == c {
            return true;
        }
        k = k + 1;
    }
    false
}

/// A copy of a client list.
#[verifier::loop_isolation(false)]
fn client_vec_copy(v: &Vec<Client>) -> (r: Vec<Client>)
    ensures
        r@ == v@,
{
    let mut r: Vec<Client> = Vec::new();
    let mut k: usize = 0;
    while k < v.len()
        invariant
            k <= v.len(),
            r@ == v@.subrange(0, k as int),
        decreases v.len() - k,
    {
        r.push(v[k]);
        proof {
            assert(r@ =~= v@.subrange(0, k + 1 as int));
        }
        k = k + 1;
    }
    proof {
        assert(v@.subrange(0, v@.len() as int) =~= v@);
    }
    r
}

/// Add client `c` to the list unless it is already there.
#[verifier::loop_isolation(false)]
fn client_vec_insert(v: &mut Vec<Client>, c: Client)
    requires
        distinct_clients(old(v)@),
    ensures
        distinct_clients(final(v)@),
        final(v)@ == (if old(v)@.contains(c) {
            old(v)@
        } else {
            old(v)@.push(c)
        }),
        old(v)@.contains(c) ==> *final(v) == *old(v),
{
    if !client_vec_contains(v, c) {
        v.push(c);
    }
}

/// Remove client `c` from the list if it is there.
#[verifier::loop_isolation(false)]
fn client_vec_remove(v: &mut Vec<Client>, c: Client)
    requires
        distinct_clients(old(v)@),
    ensures
        distinct_clients(final(v)@),
        forall|c2: Client| final(v)@.contains(c2) <==> old(v)@.contains(c2) && c2 != c,
        !old(v)@.contains(c) ==> *final(v) == *old(v),
{
    let ghost q = v@;
    let mut k: usize = 0;
    while k < v.len()
        invariant
            *v == *old(v),
            v@ == q,
            k <= v.len(),
            forall|j: int| 0 <= j < k ==> v@[j] != c,
        decreases v.len() - k,
    {
        if v[k] == c {
            v.remove(k);
            proof {
                let r = q.remove(k as int);
                assert forall|c2: Client| r.contains(c2) implies q.contains(c2) && c2 != c by {
                    let j = choose|j: int| 0 <= j < r.len() && r[j] == c2;
                    let jq: int = if j < k {
                        j
                    } else {
                        j + 1
                    };
                    assert(r[j] == q[jq]);
                    if c2 == c {
                        assert(q[jq] == q[k as int]);
                        assert(false);
                    }
                }
                assert forall|c2: Client| q.contains(c2) && c2 != c implies r.contains(c2) by {
                    let j = choose|j: int| 0 <= j < q.len() && q[j] == c2;
                    if j < k {
                        assert(r[j] == q[j]);
                    } else {
                        assert(j != k);
                        assert(r[j - 1] == q[j]);
                    }
                }
                assert forall|j1: int, j2: int| 0 <= j1 < j2 < r.len() implies r[j1] != r[j2] by {
                    let k1: int = if j1 < k {
                        j1
                    } else {
                        j1 + 1
                    };
                    let k2: int = if j2 < k {
                        j2
                    } else {
                        j2 + 1
                    };
                    assert(r[j1] == q[k1]);
                    assert(r[j2] == q[k2]);
                }
            }
            return ;
        }
        k = k + 1;
    }
    proof {
        if v@.contains(c) {
            let j = choose|j: int| 0 <= j < v@.len() && v@[j] == c;
            assert(false);
        }
    }
}

/// Add the client/object pair to the forward index unless it is already
/// there.
#[verifier::loop_isolation(false)]
fn fwd_insert(p: &mut Vec<(Client, String)>, c: Client, o: String)
    requires
        fwd_distinct(old(p)@),
    ensures
        fwd_distinct(final(p)@),
        forall|c2: Client, o2: Seq<char>|
            #[trigger] fwd_has_in(final(p)@, c2, o2) <==> (fwd_has_in(old(p)@, c2, o2) || (c2 == c
                && o2 == o@)),
        fwd_has_in(old(p)@, c, o@) ==> *final(p) == *old(p),
{
    let ghost q = p@;
    let mut k: usize = 0;
    while k < p.len()
        invariant
            *p == *old(p),
            p@ == q,
            k <= p.len(),
            forall|j: int| 0 <= j < k ==> !(#[trigger] p@[j].0 == c && p@[j].1@ == o@),
        decreases p.len() - k,
    {
        if p[k].0 == c && p[k].1.eq(&o) {
            proof {
                assert(fwd_pair_at(q, k as int, c, o@));
                assert(fwd_has_in(q, c, o@));
            }
            return ;
        }
        k = k + 1;
    }
    proof {
        if fwd_has_in(q, c, o@) {
            let j = choose|j: int| 0 <= j < q.len() && #[trigger] fwd_pair_at(q, j, c, o@);
            assert(false);
        }
        lemma_fwd_push(q, c, o);
    }
    p.push((c, o));
}

/// Remove the client/object pair from the forward index if it is there.
#[verifier::loop_isolation(false)]
fn fwd_remove(p: &mut Vec<(Client, String)>, c: Client, o: &String)
    requires
        fwd_distinct(old(p)@),
    ensures
        fwd_distinct(final(p)@),
        forall|c2: Client, o2: Seq<char>|
            #[trigger] fwd_has_in(final(p)@, c2, o2) <==> (fwd_has_in(old(p)@, c2, o2) && !(c2 == c
                && o2 == o@)),
        !fwd_has_in(old(p)@, c, o@) ==> *final(p) == *old(p),
{
    let ghost q = p@;
    let mut k: usize = 0;
    while k < p.len()
        invariant
            *p == *old(p),
            p@ == q,
            k <= p.len(),
            forall|j: int| 0 <= j < k ==> !(#[trigger] p@[j].0 == c && p@[j].1@ == o@),
        decreases p.len() - k,
    {
        if p[k].0 == c && p[k].1.eq(o) {
            proof {
                assert(fwd_pair_at(q, k as int, c, o@));
                assert(fwd_has_in(q, c, o@));
                lemma_fwd_remove_one(q, k as int);
            }
            p.remove(k);
            return ;
        }
        k = k + 1;
    }
    proof {
        if fwd_has_in(q, c, o@) {
            let j = choose|j: int| 0 <= j < q.len() && #[trigger] fwd_pair_at(q, j, c, o@);
            assert(false);
        }
    }
}

/// Remove every pair of client `c` from the forward index.
#[verifier::loop_isolation(false)]
fn fwd_remove_client(p: &mut Vec<(Client, String)>, c: Client)
    requires
        fwd_distinct(old(p)@),
    ensures
        fwd_distinct(final(p)@),
        forall|c2: Client, o2: Seq<char>|
            #[trigger] fwd_has_in(final(p)@, c2, o2) <==> (fwd_has_in(old(p)@, c2, o2) && c2 != c),
        (forall|o2: Seq<char>| !fwd_has_in(old(p)@, c, o2)) ==> *final(p) == *old(p),
{
    let mut k: usize = 0;
    while k < p.len()
        invariant
            fwd_distinct(p@),
            k <= p.len(),
            forall|j: int| 0 <= j < k ==> (#[trigger] p@[j]).0 != c,
            forall|c2: Client, o2: Seq<char>|
                c2 != c ==> (#[trigger] fwd_has_in(p@, c2, o2) <==> fwd_has_in(old(p)@, c2, o2)),
            forall|o2: Seq<char>|
                #[trigger] fwd_has_in(p@, c, o2) ==> fwd_has_in(old(p)@, c, o2),
            (forall|o2: Seq<char>| !fwd_has_in(old(p)@, c, o2)) ==> *p == *old(p),
        decreases p.len() - k,
    {
        if p[k].0 == c {
            proof {
                assert(fwd_pair_at(p@, k as int, c, p@[k as int].1@));
                assert(fwd_has_in(p@, c, p@[k as int].1@));
                lemma_fwd_remove_one(p@, k as int);
            }
            p.remove(k);
        } else {
            k = k + 1;
        }
    }
    proof {
        assert forall|o2: Seq<char>| !fwd_has_in(p@, c, o2) by {
            if fwd_has_in(p@, c, o2) {
                let j = choose|j: int| 0 <= j < p@.len() && #[trigger] fwd_pair_at(p@, j, c, o2);
                assert(false);
            }
        }
    }
}

/// Remove every pair of client `c` from the reverse index.
#[verifier::loop_isolation(false)]
fn rvs_remove_client(p: &mut Vec<(String, Client)>, c: Client)
    requires
        rvs_distinct(old(p)@),
    ensures
        rvs_distinct(final(p)@),
        forall|o2: Seq<char>, c2: Client|
            #[trigger] rvs_has_in(final(p)@, o2, c2) <==> (rvs_has_in(old(p)@, o2, c2) && c2 != c),
        (forall|o2: Seq<char>| !rvs_has_in(old(p)@, o2, c)) ==> *final(p) == *old(p),
{
    let mut k: usize = 0;
    while k < p.len()
        invariant
            rvs_distinct(p@),
            k <= p.len(),
            forall|j: int| 0 <= j < k ==> (#[trigger] p@[j]).1 != c,
            forall|o2: Seq<char>, c2: Client|
                c2 != c ==> (#[trigger] rvs_has_in(p@, o2, c2) <==> rvs_has_in(old(p)@, o2, c2)),
            forall|o2: Seq<char>|
                #[trigger] rvs_has_in(p@, o2, c) ==> rvs_has_in(old(p)@, o2, c),
            (forall|o2: Seq<char>| !rvs_has_in(old(p)@, o2, c)) ==> *p == *old(p),
        decreases p.len() - k,
    {
        if p[k].1 == c {
            proof {
                assert(rvs_pair_at(p@, k as int, p@[k as int].0@, c));
                assert(rvs_has_in(p@, p@[k as int].0@, c));
                lemma_rvs_remove_one(p@, k as int);
            }
            p.remove(k);
        } else {
            k = k + 1;
        }
    }
    proof {
        assert forall|o2: Seq<char>| !rvs_has_in(p@, o2, c) by {
            if rvs_has_in(p@, o2, c) {
                let j = choose|j: int| 0 <= j < p@.len() && #[trigger] rvs_pair_at(p@, j, o2, c);
                assert(false);
            }
        }
    }
}

/// Add the object/client pair to the reverse index unless it is already
/// there.
#[verifier::loop_isolation(false)]
fn rvs_insert(p: &mut Vec<(String, Client)>, o: String, c: Client)
    requires
        rvs_distinct(old(p)@),
    ensures
        rvs_distinct(final(p)@),
        forall|o2: Seq<char>, c2: Client|
            #[trigger] rvs_has_in(final(p)@, o2, c2) <==> (rvs_has_in(old(p)@, o2, c2) || (o2 == o@
                && c2 == c)),
        rvs_has_in(old(p)@, o@, c) ==> *final(p) == *old(p),
{
    let ghost q = p@;
    let mut k: usize = 0;
    while k < p.len()
        invariant
            *p == *old(p),
            p@ == q,
            k <= p.len(),
            forall|j: int| 0 <= j < k ==> !(#[trigger] p@[j].0@ == o@ && p@[j].1 == c),
        decreases p.len() - k,
    {
        if p[k].1 == c && p[k].0.eq(&o) {
            proof {
                assert(rvs_pair_at(q, k as int, o@, c));
                assert(rvs_has_in(q, o@, c));
            }
            return ;
        }
        k = k + 1;
    }
    proof {
        if rvs_has_in(q, o@, c) {
            let j = choose|j: int| 0 <= j < q.len() && #[trigger] rvs_pair_at(q, j, o@, c);
            assert(false);
        }
        lemma_rvs_push(q, o, c);
    }
    p.push((o, c));
}

/// Remove the object/client pair from the reverse index if it is there.
#[verifier::loop_isolation(false)]
fn rvs_remove(p: &mut Vec<(String, Client)>, o: &String, c: Client)
    requires
        rvs_distinct(old(p)@),
    ensures
        rvs_distinct(final(p)@),
        forall|o2: Seq<char>, c2: Client|
            #[trigger] rvs_has_in(final(p)@, o2, c2) <==> (rvs_has_in(old(p)@, o2, c2) && !(o2
                == o@ && c2 == c)),
        !rvs_has_in(old(p)@, o@, c) ==> *final(p) == *old(p),
{
    let ghost q = p@;
    let mut k: usize = 0;
    while k < p.len()
        invariant
            *p == *old(p),
            p@ == q,
            k <= p.len(),
            forall|j: int| 0 <= j < k ==> !(#[trigger] p@[j].0@ == o@ && p@[j].1 == c),
        decreases p.len() - k,
    {
        if p[k].1 == c && p[k].0.eq(o) {
            proof {
                assert(rvs_pair_at(q, k as int, o@, c));
                assert(rvs_has_in(q, o@, c));
                lemma_rvs_remove_one(q, k as int);
            }
            p.remove(k);
            return ;
        }
        k = k + 1;
    }
    proof {
        if rvs_has_in(q, o@, c) {
            let j = choose|j: int| 0 <= j < q.len() && #[trigger] rvs_pair_at(q, j, o@, c);
            assert(false);
        }
    }
}

/// The objects of client `c`, copied out of the forward index in order.
#[verifier::loop_isolation(false)]
fn fwd_objects_of(p: &Vec<(Client, String)>, c: Client) -> (r: Vec<String>)
    ensures
        strs_views(r@) == objs_in(p@, c),
{
    let mut r: Vec<String> = Vec::new();
    let mut k: usize = 0;
    while k < p.len()
        invariant
            k <= p.len(),
            strs_views(r@) == objs_in(p@.subrange(0, k as int), c),
        decreases p.len() - k,
    {
        let ghost r0 = r@;
        if p[k].0 == c {
            r.push(p[k].1.clone());
        }
        proof {
            let pre = p@.subrange(0, k as int);
            let cur = p@.subrange(0, k + 1 as int);
            assert(cur.drop_last() =~= pre);
            assert(cur.last() == p@[k as int]);
            if p@[k as int].0 == c {
                assert(strs_views(r@) =~= strs_views(r0).push(p@[k as int].1@));
            } else {
                assert(r@ == r0);
            }
        }
        k = k + 1;
    }
    proof {
        assert(p@.subrange(0, p@.len() as int) =~= p@);
    }
    r
}

/// The first `n` entries of the reverse index hold the pair of `o` and `c`.
spec fn rvs_has_prefix(p: Seq<(String, Client)>, n: int, o: Seq<char>, c: Client) -> bool {
    exists|j: int| 0 <= j < n && #[trigger] rvs_pair_at(p, j, o, c)
}

/// Append to `acc` every client the reverse index subscribes to object `o`,
/// skipping clients already in `acc`.
#[verifier::loop_isolation(false)]
fn rvs_clients_into(p: &Vec<(String, Client)>, o: &String, acc: &mut Vec<Client>)
    requires
        distinct_clients(old(acc)@),
    ensures
        distinct_clients(final(acc)@),
        forall|c2: Client|
            final(acc)@.contains(c2) <==> old(acc)@.contains(c2) || rvs_has_in(p@, o@, c2),
{
    let mut k: usize = 0;
    while k < p.len()
        invariant
            k <= p.len(),
            distinct_clients(acc@),
            forall|c2: Client|
                #[trigger] acc@.contains(c2) <==> old(acc)@.contains(c2) || rvs_has_prefix(
                    p@,
                    k as int,
                    o@,
                    c2,
                ),
        decreases p.len() - k,
    {
        let ghost a0 = acc@;
        if p[k].0.eq(o) {
            if !client_vec_contains(acc, p[k].1) {
                acc.push(p[k].1);
            }
        }
        proof {
            assert forall|c2: Client|
                #[trigger] acc@.contains(c2) <==> (old(acc)@.contains(c2) || rvs_has_prefix(
                    p@,
                    k as int + 1,
                    o@,
                    c2,
                )) by {
                let hit = p@[k as int].0@ == o@ && p@[k as int].1 == c2;
                assert(a0.contains(c2) <==> (old(acc)@.contains(c2) || rvs_has_prefix(
                    p@,
                    k as int,
                    o@,
                    c2,
                )));
                assert(rvs_has_prefix(p@, k as int + 1, o@, c2) <==> (rvs_has_prefix(
                    p@,
                    k as int,
                    o@,
                    c2,
                ) || hit)) by {
                    if rvs_has_prefix(p@, k as int + 1, o@, c2) {
                        let j = choose|j: int|
                            0 <= j < k + 1 && #[trigger] rvs_pair_at(p@, j, o@, c2);
                        if j < k {
                            assert(rvs_has_prefix(p@, k as int, o@, c2));
                        }
                    }
                    if rvs_has_prefix(p@, k as int, o@, c2) {
                        let j = choose|j: int| 0 <= j < k && #[trigger] rvs_pair_at(p@, j, o@, c2);
                        assert(rvs_pair_at(p@, j, o@, c2));
                        assert(rvs_has_prefix(p@, k as int + 1, o@, c2));
                    }
                    if hit {
                        assert(rvs_pair_at(p@, k as int, o@, c2));
                        assert(rvs_has_prefix(p@, k as int + 1, o@, c2));
                    }
                }
                assert(acc@.contains(c2) <==> (a0.contains(c2) || hit)) by {
                    if acc@.contains(c2) {
                        let j = choose|j: int| 0 <= j < acc@.len() && acc@[j] == c2;
                        if j < a0.len() {
                            assert(a0[j] == c2);
                            assert(a0.contains(c2));
                        }
                    }
                    if a0.contains(c2) {
                        let j = choose|j: int| 0 <= j < a0.len() && a0[j] == c2;
                        assert(acc@[j] == c2);
                        assert(acc@.contains(c2));
                    }
                    if hit && !a0.contains(c2) {
                        assert(acc@[a0.len() as int] == c2);
                        assert(acc@.contains(c2));
                    }
                }
            }
        }
        k = k + 1;
    }
    proof {
        assert forall|c2: Client| #[trigger] rvs_has_prefix(p@, p@.len() as int, o@, c2)
            <==> rvs_has_in(p@, o@, c2) by {}
    }
}

/// The subscription registry.
#[derive(Debug)]
pub struct Subscriptions {
    pub kb_sub: Vec<Client>,
    pub mb_sub: Vec<Client>,
    pub tx_sub: Vec<Client>,
    pub tu_sub: Vec<Client>,
    pub object_subs_fwd: Vec<(Client, String)>,
    pub object_subs_rvs: Vec<(String, Client)>,
}

/// The effect of a vanilla subscribe: the pair of `kind` and `c` is added
/// (if `kind` is vanilla) and nothing else changes.
pub open spec fn vanilla_subscribed(
    pre: Subscriptions,
    post: Subscriptions,
    kind: WsPayload,
    c: Client,
) -> bool {
    &&& forall|k2: WsPayload, c2: Client|
        #[trigger] post.vanilla_has(k2, c2) <==> (pre.vanilla_has(k2, c2) || (kind.is_vanilla()
            && k2 == kind && c2 == c))
    &&& forall|k2: WsPayload|
        k2 != kind ==> #[trigger] post.vanilla_seq(k2) == pre.vanilla_seq(k2)
    &&& kind.is_vanilla() ==> post.vanilla_seq(kind) == (if pre.vanilla_has(kind, c) {
        pre.vanilla_seq(kind)
    } else {
        pre.vanilla_seq(kind).push(c)
    })
    &&& post.object_subs_fwd == pre.object_subs_fwd
    &&& post.object_subs_rvs == pre.object_subs_rvs
}

/// The effect of a vanilla unsubscribe: the pair of `kind` and `c` is gone
/// and nothing else changes.
pub open spec fn vanilla_unsubscribed(
    pre: Subscriptions,
    post: Subscriptions,
    kind: WsPayload,
    c: Client,
) -> bool {
    &&& forall|k2: WsPayload, c2: Client|
        #[trigger] post.vanilla_has(k2, c2) <==> (pre.vanilla_has(k2, c2) && !(k2 == kind && c2
            == c))
    &&& forall|k2: WsPayload|
        k2 != kind ==> #[trigger] post.vanilla_seq(k2) == pre.vanilla_seq(k2)
    &&& post.object_subs_fwd == pre.object_subs_fwd
    &&& post.object_subs_rvs == pre.object_subs_rvs
}

/// The effect of an object subscribe: the pair of `c` and `o` is in both
/// indices and nothing else changes.
pub open spec fn object_subscribed(
    pre: Subscriptions,
    post: Subscriptions,
    c: Client,
    o: Seq<char>,
) -> bool {
    &&& forall|c2: Client, o2: Seq<char>|
        #[trigger] post.fwd_has(c2, o2) <==> (pre.fwd_has(c2, o2) || (c2 == c && o2 == o))
    &&& forall|o2: Seq<char>, c2: Client|
        #[trigger] post.rvs_has(o2, c2) <==> (pre.rvs_has(o2, c2) || (o2 == o && c2 == c))
    &&& post.kb_sub == pre.kb_sub
    &&& post.mb_sub == pre.mb_sub
    &&& post.tx_sub == pre.tx_sub
    &&& post.tu_sub == pre.tu_sub
}

/// The effect of an object unsubscribe: the pair of `c` and `o` is out of
/// both indices and nothing else changes.
pub open spec fn object_unsubscribed(
    pre: Subscriptions,
    post: Subscriptions,
    c: Client,
    o: Seq<char>,
) -> bool {
    &&& forall|c2: Client, o2: Seq<char>|
        #[trigger] post.fwd_has(c2, o2) <==> (pre.fwd_has(c2, o2) && !(c2 == c && o2 == o))
    &&& forall|o2: Seq<char>, c2: Client|
        #[trigger] post.rvs_has(o2, c2) <==> (pre.rvs_has(o2, c2) && !(o2 == o && c2 == c))
    &&& post.kb_sub == pre.kb_sub
    &&& post.mb_sub == pre.mb_sub
    &&& post.tx_sub == pre.tx_sub
    &&& post.tu_sub == pre.tu_sub
}

/// The effect of a disconnect: client `c` is gone from every vanilla set
/// and from both indices; everyone else keeps every subscription.
pub open spec fn disconnected(pre: Subscriptions, post: Subscriptions, c: Client) -> bool {
    &&& forall|k2: WsPayload, c2: Client|
        #[trigger] post.vanilla_has(k2, c2) <==> (pre.vanilla_has(k2, c2) && c2 != c)
    &&& forall|c2: Client, o2: Seq<char>|
        #[trigger] post.fwd_has(c2, o2) <==> (pre.fwd_has(c2, o2) && c2 != c)
    &&& forall|o2: Seq<char>, c2: Client|
        #[trigger] post.rvs_has(o2, c2) <==> (pre.rvs_has(o2, c2) && c2 != c)
}

impl Subscriptions {
    /// The subscriber list of a vanilla category; empty for the object
    /// category, which has no set of its own.
    pub open spec fn vanilla_seq(self, kind: WsPayload) -> Seq<Client> {
        match kind {
            WsPayload::KeyBlocks => self.kb_sub@,
            WsPayload::MicroBlocks => self.mb_sub@,
            WsPayload::Transactions => self.tx_sub@,
            WsPayload::TxUpdate => self.tu_sub@,
            WsPayload::Object => Seq::empty(),
        }
    }

    /// Client `c` is subscribed to vanilla category `kind`.
    pub open spec fn vanilla_has(self, kind: WsPayload, c: Client) -> bool {
        self.vanilla_seq(kind).contains(c)
    }

    /// The forward index holds the pair of client `c` and object `o`.
    pub open spec fn fwd_has(self, c: Client, o: Seq<char>) -> bool {
        fwd_has_in(self.object_subs_fwd@, c, o)
    }

    /// The reverse index holds the pair of object `o` and client `c`.
    pub open spec fn rvs_has(self, o: Seq<char>, c: Client) -> bool {
        rvs_has_in(self.object_subs_rvs@, o, c)
    }

    /// The two object indices are mirror images of each other.
    pub open spec fn consistent(self) -> bool {
        forall|c: Client, o: Seq<char>| #[trigger] self.fwd_has(c, o) <==> #[trigger] self.rvs_has(
            o,
            c,
        )
    }

    /// Well-formedness: no duplicates anywhere, and the forward and reverse
    /// indices agree. Established by [`Subscriptions::new`] and preserved by
    /// every operation.
    pub open spec fn wf(self) -> bool {
        &&& distinct_clients(self.kb_sub@)
        &&& distinct_clients(self.mb_sub@)
        &&& distinct_clients(self.tx_sub@)
        &&& distinct_clients(self.tu_sub@)
        &&& fwd_distinct(self.object_subs_fwd@)
        &&& rvs_distinct(self.object_subs_rvs@)
        &&& self.consistent()
    }

    /// The names of the vanilla categories `c` is listed under, in fixed
    /// declaration order. The update entry is driven by the transactions
    /// set, a behaviour this registry has always had: an update-only
    /// subscription is not listed, and a transactions subscription is
    /// listed under both names.
    pub open spec fn vanilla_names_spec(self, c: Client) -> Seq<Seq<char>> {
        (if self.vanilla_has(WsPayload::KeyBlocks, c) {
            seq!["KeyBlocks"@]
        } else {
            Seq::empty()
        }) + (if self.vanilla_has(WsPayload::MicroBlocks, c) {
            seq!["MicroBlocks"@]
        } else {
            Seq::empty()
        }) + (if self.vanilla_has(WsPayload::Transactions, c) {
            seq!["Transactions"@]
        } else {
            Seq::empty()
        }) + (if self.vanilla_has(WsPayload::Transactions, c) {
            seq!["TxUpdate"@]
        } else {
            Seq::empty()
        })
    }

    /// The full subscription list of client `c`: vanilla category names in
    /// fixed order, then object identifiers in insertion order.
    pub open spec fn subs_list_spec(self, c: Client) -> Seq<Seq<char>> {
        self.vanilla_names_spec(c) + objs_in(self.object_subs_fwd@, c)
    }

    /// A fresh, empty registry.
    pub fn new() -> (s: Self)
        ensures
            s.wf(),
            s.kb_sub@ == Seq::<Client>::empty(),
            s.mb_sub@ == Seq::<Client>::empty(),
            s.tx_sub@ == Seq::<Client>::empty(),
            s.tu_sub@ == Seq::<Client>::empty(),
            s.object_subs_fwd@ == Seq::<(Client, String)>::empty(),
            s.object_subs_rvs@ == Seq::<(String, Client)>::empty(),
            forall|k2: WsPayload, c2: Client| !(#[trigger] s.vanilla_has(k2, c2)),
            forall|c2: Client, o2: Seq<char>| !(#[trigger] s.fwd_has(c2, o2)),
            forall|o2: Seq<char>, c2: Client| !(#[trigger] s.rvs_has(o2, c2)),
    {
        Subscriptions {
            kb_sub: Vec::new(),
            mb_sub: Vec::new(),
            tx_sub: Vec::new(),
            tu_sub: Vec::new(),
            object_subs_fwd: Vec::new(),
            object_subs_rvs: Vec::new(),
        }
    }

    /// A copy of the subscriber set of a vanilla category; the object
    /// category has none.
    pub fn get_subscription(&self, kind: WsPayload) -> (r: Option<Vec<Client>>)
        ensures
            match r {
                Some(v) => kind.is_vanilla() && v@ == self.vanilla_seq(kind),
                None => kind == WsPayload::Object,
            },
    {
        match kind {
            WsPayload::KeyBlocks => Some(client_vec_copy(&self.kb_sub)),
            WsPayload::MicroBlocks => Some(client_vec_copy(&self.mb_sub)),
            WsPayload::Transactions => Some(client_vec_copy(&self.tx_sub)),
            WsPayload::TxUpdate => Some(client_vec_copy(&self.tu_sub)),
            WsPayload::Object => None,
        }
    }

    /// Idempotently add `client` to the subscriber set of a vanilla
    /// category. Subscribing to the object category this way is a no-op.
    pub fn vanilla_subscribe(&mut self, kind: &WsPayload, client: &Client)
        requires
            old(self).wf(),
        ensures
            final(self).wf(),
            vanilla_subscribed(*old(self), *final(self), *kind, *client),
            old(self).vanilla_has(*kind, *client) || !kind.is_vanilla() ==> *final(self) == *old(
                self,
            ),
    {
        match kind {
            WsPayload::KeyBlocks => client_vec_insert(&mut self.kb_sub, *client),
            WsPayload::MicroBlocks => client_vec_insert(&mut self.mb_sub, *client),
            WsPayload::Transactions => client_vec_insert(&mut self.tx_sub, *client),
            WsPayload::TxUpdate => client_vec_insert(&mut self.tu_sub, *client),
            WsPayload::Object => {},
        }
        proof {
            assert forall|c2: Client, o2: Seq<char>| #[trigger] self.fwd_has(c2, o2)
                <==> #[trigger] self.rvs_has(o2, c2) by {
                assert(old(self).fwd_has(c2, o2) <==> old(self).rvs_has(o2, c2));
            }
        }
    }

    /// Idempotently remove `client` from the subscriber set of a vanilla
    /// category. Unsubscribing from the object category this way is a
    /// no-op.
    pub fn vanilla_unsubscribe(&mut self, kind: &WsPayload, client: &Client)
        requires
            old(self).wf(),
        ensures
            final(self).wf(),
            vanilla_unsubscribed(*old(self), *final(self), *kind, *client),
            !old(self).vanilla_has(*kind, *client) ==> *final(self) == *old(self),
    {
        match kind {
            WsPayload::KeyBlocks => client_vec_remove(&mut self.kb_sub, *client),
            WsPayload::MicroBlocks => client_vec_remove(&mut self.mb_sub, *client),
            WsPayload::Transactions => client_vec_remove(&mut self.tx_sub, *client),
            WsPayload::TxUpdate => client_vec_remove(&mut self.tu_sub, *client),
            WsPayload::Object => {},
        }
        proof {
            assert forall|c2: Client, o2: Seq<char>| #[trigger] self.fwd_has(c2, o2)
                <==> #[trigger] self.rvs_has(o2, c2) by {
                assert(old(self).fwd_has(c2, o2) <==> old(self).rvs_has(o2, c2));
            }
        }
    }

    /// Idempotently add the pair of `client` and `object` to both the
    /// forward and the reverse index.
    pub fn object_subscribe(&mut self, client: Client, object: String)
        requires
            old(self).wf(),
        ensures
            final(self).wf(),
            object_subscribed(*old(self), *final(self), client, object@),
            old(self).fwd_has(client, object@) ==> *final(self) == *old(self),
    {
        let ghost ov: Seq<char> = object@;
        proof {
            assert(old(self).fwd_has(client, object@) <==> old(self).rvs_has(object@, client));
        }
        fwd_insert(&mut self.object_subs_fwd, client, object.clone());
        rvs_insert(&mut self.object_subs_rvs, object, client);
        proof {
            assert forall|c2: Client, o2: Seq<char>| #[trigger] self.fwd_has(c2, o2)
                <==> #[trigger] self.rvs_has(o2, c2) by {
                assert(old(self).fwd_has(c2, o2) <==> old(self).rvs_has(o2, c2));
                assert(fwd_has_in(self.object_subs_fwd@, c2, o2) <==> (fwd_has_in(
                    old(self).object_subs_fwd@,
                    c2,
                    o2,
                ) || (c2 == client && o2 == ov)));
                assert(rvs_has_in(self.object_subs_rvs@, o2, c2) <==> (rvs_has_in(
                    old(self).object_subs_rvs@,
                    o2,
                    c2,
                ) || (o2 == ov && c2 == client)));
            }
        }
    }

    /// Idempotently remove the pair of `client` and `object` from both the
    /// forward and the reverse index.
    pub fn object_unsubscribe(&mut self, client: Client, object: String)
        requires
            old(self).wf(),
        ensures
            final(self).wf(),
            object_unsubscribed(*old(self), *final(self), client, object@),
            !old(self).fwd_has(client, object@) ==> *final(self) == *old(self),
    {
        let ghost ov: Seq<char> = object@;
        proof {
            assert(old(self).fwd_has(client, object@) <==> old(self).rvs_has(object@, client));
        }
        fwd_remove(&mut self.object_subs_fwd, client, &object);
        rvs_remove(&mut self.object_subs_rvs, &object, client);
        proof {
            assert forall|c2: Client, o2: Seq<char>| #[trigger] self.fwd_has(c2, o2)
                <==> #[trigger] self.rvs_has(o2, c2) by {
                assert(old(self).fwd_has(c2, o2) <==> old(self).rvs_has(o2, c2));
                assert(fwd_has_in(self.object_subs_fwd@, c2, o2) <==> (fwd_has_in(
                    old(self).object_subs_fwd@,
                    c2,
                    o2,
                ) && !(c2 == client && o2 == ov)));
                assert(rvs_has_in(self.object_subs_rvs@, o2, c2) <==> (rvs_has_in(
                    old(self).object_subs_rvs@,
                    o2,
                    c2,
                ) && !(o2 == ov && c2 == client)));
            }
        }
    }

    /// Tear down every subscription of `client`: all four vanilla sets and
    /// every pair of both object indices. Safe to call any number of
    /// times.
    pub fn client_unsubscribe(&mut self, client: Client)
        requires
            old(self).wf(),
        ensures
            final(self).wf(),
            disconnected(*old(self), *final(self), client),
            forall|k2: WsPayload| !(#[trigger] final(self).vanilla_has(k2, client)),
            forall|o2: Seq<char>| !(#[trigger] final(self).fwd_has(client, o2)),
            forall|o2: Seq<char>| !(#[trigger] final(self).rvs_has(o2, client)),
            final(self).subs_list_spec(client) == Seq::<Seq<char>>::empty(),
            (forall|k2: WsPayload| !(#[trigger] old(self).vanilla_has(k2, client))) && (forall|
                o2: Seq<char>,
            |
                !(#[trigger] old(self).fwd_has(client, o2))) ==> *final(self) == *old(self),
    {
        client_vec_remove(&mut self.kb_sub, client);
        client_vec_remove(&mut self.mb_sub, client);
        client_vec_remove(&mut self.tx_sub, client);
        client_vec_remove(&mut self.tu_sub, client);
        fwd_remove_client(&mut self.object_subs_fwd, client);
        rvs_remove_client(&mut self.object_subs_rvs, client);
        proof {
            assert forall|c2: Client, o2: Seq<char>| #[trigger] self.fwd_has(c2, o2)
                <==> #[trigger] self.rvs_has(o2, c2) by {
                assert(old(self).fwd_has(c2, o2) <==> old(self).rvs_has(o2, c2));
                assert(fwd_has_in(self.object_subs_fwd@, c2, o2) <==> (fwd_has_in(
                    old(self).object_subs_fwd@,
                    c2,
                    o2,
                ) && c2 != client));
                assert(rvs_has_in(self.object_subs_rvs@, o2, c2) <==> (rvs_has_in(
                    old(self).object_subs_rvs@,
                    o2,
                    c2,
                ) && c2 != client));
            }
            lemma_objs_in_empty(self.object_subs_fwd@, client);
            assert(self.subs_list_spec(client) =~= Seq::<Seq<char>>::empty());
            if (forall|k2: WsPayload| !(#[trigger] old(self).vanilla_has(k2, client))) && (forall|
                o2: Seq<char>,
            |
                !(#[trigger] old(self).fwd_has(client, o2))) {
                assert(!old(self).vanilla_has(WsPayload::KeyBlocks, client));
                assert(!old(self).vanilla_has(WsPayload::MicroBlocks, client));
                assert(!old(self).vanilla_has(WsPayload::Transactions, client));
                assert(!old(self).vanilla_has(WsPayload::TxUpdate, client));
                assert forall|o2: Seq<char>|
                    !(#[trigger] fwd_has_in(old(self).object_subs_fwd@, client, o2)) by {
                    assert(!old(self).fwd_has(client, o2));
                }
                assert forall|o2: Seq<char>|
                    !(#[trigger] rvs_has_in(old(self).object_subs_rvs@, o2, client)) by {
                    if rvs_has_in(old(self).object_subs_rvs@, o2, client) {
                        assert(old(self).rvs_has(o2, client));
                        assert(old(self).fwd_has(client, o2));
                        assert(false);
                    }
                }
                assert(*self == *old(self));
            }
        }
    }

    /// The full subscription list of `client`, serialized as strings:
    /// vanilla category names in fixed declaration order, then object
    /// identifiers in insertion order.
    pub fn subs_for_client(&self, client: Client) -> (r: Vec<String>)
        ensures
            strs_views(r@) == self.subs_list_spec(client),
    {
        let mut r: Vec<String> = Vec::new();
        if client_vec_contains(&self.kb_sub, client) {
            r.push("KeyBlocks".to_owned());
        }
        proof {
            assert(strs_views(r@) =~= (if self.vanilla_has(WsPayload::KeyBlocks, client) {
                seq!["KeyBlocks"@]
            } else {
                Seq::empty()
            }));
        }
        let ghost g1 = strs_views(r@);
        if client_vec_contains(&self.mb_sub, client) {
            r.push("MicroBlocks".to_owned());
        }
        proof {
            assert(strs_views(r@) =~= g1 + (if self.vanilla_has(WsPayload::MicroBlocks, client) {
                seq!["MicroBlocks"@]
            } else {
                Seq::empty()
            }));
        }
        let ghost g2 = strs_views(r@);
        if client_vec_contains(&self.tx_sub, client) {
            r.push("Transactions".to_owned());
        }
        proof {
            assert(strs_views(r@) =~= g2 + (if self.vanilla_has(WsPayload::Transactions, client) {
                seq!["Transactions"@]
            } else {
                Seq::empty()
            }));
        }
        let ghost g3 = strs_views(r@);
        if client_vec_contains(&self.tx_sub, client) {
            r.push("TxUpdate".to_owned());
        }
        proof {
            assert(strs_views(r@) =~= g3 + (if self.vanilla_has(WsPayload::Transactions, client) {
                seq!["TxUpdate"@]
            } else {
                Seq::empty()
            }));
            assert(strs_views(r@) =~= self.vanilla_names_spec(client));
        }
        let ghost gnames = strs_views(r@);
        let mut objs = fwd_objects_of(&self.object_subs_fwd, client);
        let ghost gobjs = objs@;
        r.append(&mut objs);
        proof {
            assert(strs_views(r@) =~= gnames + strs_views(gobjs));
            assert(strs_views(r@) =~= self.subs_list_spec(client));
        }
        r
    }

    /// The clients an incoming candidate must reach. For a vanilla
    /// category this is that category's subscriber set; for an object
    /// candidate it is every client subscribed to any object identifier
    /// found in the payload text, deduplicated.
    pub fn clients_for_object(&self, candidate: &Candidate) -> (r: Vec<Client>)
        requires
            self.wf(),
        ensures
            distinct_clients(r@),
            candidate.payload.is_vanilla() ==> r@ == self.vanilla_seq(candidate.payload),
            candidate.payload == WsPayload::Object ==> forall|c2: Client|
                r@.contains(c2) <==> exists|o: Seq<char>|
                    objects_of(candidate.data@).contains(o) && #[trigger] self.rvs_has(o, c2),
    {
        match candidate.payload {
            WsPayload::KeyBlocks => client_vec_copy(&self.kb_sub),
            WsPayload::MicroBlocks => client_vec_copy(&self.mb_sub),
            WsPayload::Transactions => client_vec_copy(&self.tx_sub),
            WsPayload::TxUpdate => client_vec_copy(&self.tu_sub),
            WsPayload::Object => {
                let objects = get_objects(candidate.data.as_str());
                let mut r: Vec<Client> = Vec::new();
                let mut k: usize = 0;
                while k < objects.len()
                    invariant
                        k <= objects.len(),
                        distinct_clients(r@),
                        forall|c2: Client|
                            r@.contains(c2) <==> exists|j: int|
                                0 <= j < k && #[trigger] self.rvs_has(objects@[j]@, c2),
                    decreases objects.len() - k,
                {
                    let ghost r0 = r@;
                    rvs_clients_into(&self.object_subs_rvs, &objects[k], &mut r);
                    proof {
                        assert forall|c2: Client| r@.contains(c2) implies (exists|j: int|
                            0 <= j < k + 1 && #[trigger] self.rvs_has(objects@[j]@, c2)) by {
                            if r0.contains(c2) {
                                let j = choose|j: int|
                                    0 <= j < k && #[trigger] self.rvs_has(objects@[j]@, c2);
                                assert(self.rvs_has(objects@[j]@, c2));
                            } else {
                                assert(self.rvs_has(objects@[k as int]@, c2));
                            }
                        }
                        assert forall|c2: Client|
                            (exists|j: int| 0 <= j < k + 1 && #[trigger] self.rvs_has(
                                objects@[j]@,
                                c2,
                            )) implies r@.contains(c2) by {
                            let j = choose|j: int|
                                0 <= j < k + 1 && #[trigger] self.rvs_has(objects@[j]@, c2);
                            if j < k {
                                assert(r0.contains(c2));
                            }
                        }
                    }
                    k = k + 1;
                }
                proof {
                    assert forall|c2: Client| r@.contains(c2) implies (exists|o: Seq<char>|
                        objects_of(candidate.data@).contains(o) && #[trigger] self.rvs_has(
                            o,
                            c2,
                        )) by {
                        let j = choose|j: int|
                            0 <= j < objects@.len() && #[trigger] self.rvs_has(objects@[j]@, c2);
                        let o = objects@[j]@;
                        assert(crate::scanner::contains_str(objects@, o));
                        assert(objects_of(candidate.data@).contains(o) && self.rvs_has(o, c2));
                    }
                    assert forall|c2: Client|
                        (exists|o: Seq<char>|
                            objects_of(candidate.data@).contains(o) && #[trigger] self.rvs_has(
                                o,
                                c2,
                            )) implies r@.contains(c2) by {
                        let o = choose|o: Seq<char>|
                            objects_of(candidate.data@).contains(o) && #[trigger] self.rvs_has(
                                o,
                                c2,
                            );
                        assert(crate::scanner::contains_str(objects@, o));
                        let j = choose|j: int|
                            0 <= j < objects@.len() && #[trigger] objects@[j]@ == o;
                        assert(self.rvs_has(objects@[j]@, c2));
                    }
                }
                r
            },
        }
    }
}

/// The forward and reverse indices of a well-formed registry are mirror
/// images: every client/object pair stands in either both or neither.
pub proof fn lemma_index_consistency(s: Subscriptions, c: Client, o: Seq<char>)
    requires
        s.wf(),
    ensures
        s.fwd_has(c, o) <==> s.rvs_has(o, c),
{
}

/// After a disconnect the departed client stands in no vanilla set and on
/// neither side of the object indices, and its subscription list is empty;
/// every other client's subscriptions are untouched.
pub proof fn lemma_disconnect_completeness(pre: Subscriptions, post: Subscriptions, c: Client)
    requires
        post.wf(),
        disconnected(pre, post, c),
    ensures
        forall|k2: WsPayload| !(#[trigger] post.vanilla_has(k2, c)),
        forall|o2: Seq<char>| !(#[trigger] post.fwd_has(c, o2)),
        forall|o2: Seq<char>| !(#[trigger] post.rvs_has(o2, c)),
        post.subs_list_spec(c) == Seq::<Seq<char>>::empty(),
        forall|k2: WsPayload, c2: Client|
            c2 != c ==> (#[trigger] post.vanilla_has(k2, c2) <==> pre.vanilla_has(k2, c2)),
        forall|c2: Client, o2: Seq<char>|
            c2 != c ==> (#[trigger] post.fwd_has(c2, o2) <==> pre.fwd_has(c2, o2)),
{
    assert forall|o2: Seq<char>| !(#[trigger] fwd_has_in(post.object_subs_fwd@, c, o2)) by {
        if fwd_has_in(post.object_subs_fwd@, c, o2) {
            assert(post.fwd_has(c, o2));
            assert(false);
        }
    }
    lemma_objs_in_empty(post.object_subs_fwd@, c);
    assert(post.subs_list_spec(c) =~= Seq::<Seq<char>>::empty());
}

/// A repeated vanilla subscribe is a no-op: applying the same subscribe
/// step a second time leaves every subscriber set and both object indices
/// exactly as they were.
pub proof fn lemma_vanilla_subscribe_idempotent(
    s0: Subscriptions,
    s1: Subscriptions,
    s2: Subscriptions,
    k: WsPayload,
    c: Client,
)
    requires
        vanilla_subscribed(s0, s1, k, c),
        vanilla_subscribed(s1, s2, k, c),
    ensures
        forall|k2: WsPayload| #[trigger] s2.vanilla_seq(k2) == s1.vanilla_seq(k2),
        s2.object_subs_fwd == s1.object_subs_fwd,
        s2.object_subs_rvs == s1.object_subs_rvs,
{
    if k.is_vanilla() {
        assert(s1.vanilla_has(k, c));
    }
}

/// A repeated object subscribe changes no membership: the pair is already
/// in both indices, so the second step finds everything in place.
pub proof fn lemma_object_subscribe_idempotent(
    s0: Subscriptions,
    s1: Subscriptions,
    s2: Subscriptions,
    c: Client,
    o: Seq<char>,
)
    requires
        object_subscribed(s0, s1, c, o),
        object_subscribed(s1, s2, c, o),
    ensures
        forall|c2: Client, o2: Seq<char>| #[trigger] s2.fwd_has(c2, o2) <==> s1.fwd_has(c2, o2),
        forall|o2: Seq<char>, c2: Client| #[trigger] s2.rvs_has(o2, c2) <==> s1.rvs_has(o2, c2),
        s2.kb_sub == s1.kb_sub,
        s2.mb_sub == s1.mb_sub,
        s2.tx_sub == s1.tx_sub,
        s2.tu_sub == s1.tu_sub,
{
}

/// A repeated unsubscribe or disconnect is a no-op at the membership
/// level: what the first step removed, the second finds already gone.
pub proof fn lemma_remove_steps_idempotent(
    s0: Subscriptions,
    s1: Subscriptions,
    s2: Subscriptions,
    c: Client,
)
    requires
        disconnected(s0, s1, c),
        disconnected(s1, s2, c),
    ensures
        forall|k2: WsPayload, c2: Client|
            #[trigger] s2.vanilla_has(k2, c2) <==> s1.vanilla_has(k2, c2),
        forall|c2: Client, o2: Seq<char>| #[trigger] s2.fwd_has(c2, o2) <==> s1.fwd_has(c2, o2),
        forall|o2: Seq<char>, c2: Client| #[trigger] s2.rvs_has(o2, c2) <==> s1.rvs_has(o2, c2),
{
}

/// Subscribing to one vanilla category never touches another category's
/// subscriber set: the recipients of every other category are unchanged.
pub proof fn lemma_category_isolation(
    pre: Subscriptions,
    post: Subscriptions,
    k1: WsPayload,
    k2: WsPayload,
    c: Client,
)
    requires
        vanilla_subscribed(pre, post, k1, c),
        k1 != k2,
    ensures
        post.vanilla_seq(k2) == pre.vanilla_seq(k2),
        forall|c2: Client| #[trigger] post.vanilla_has(k2, c2) <==> pre.vanilla_has(k2, c2),
{
}

} // verus!
