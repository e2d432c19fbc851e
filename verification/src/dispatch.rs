//! Dispatcher planning: turn one broadcast candidate into one independent
//! delivery task per matched client.
//!
//! The actual sends run outside this crate on a worker pool so that a slow
//! client never delays the others or the caller; what is verified here is
//! the fan-out itself: exactly one task per resolved recipient, each task
//! carrying the same fixed envelope.

use vstd::prelude::*;

use crate::registry::distinct_clients;
use crate::registry::Subscriptions;
use crate::scanner::objects_of;
use crate::types::Candidate;
use crate::types::Client;
use crate::types::WsPayload;

verus! {

/// The broadcast envelope: the subscription name the event relates to,
/// then the payload text, framed as a JSON object.
pub open spec fn envelope_spec(kind: WsPayload, data: Seq<char>) -> Seq<char> {
    "{\"subscription\":\""@ + kind.name_spec() + "\",\"payload\":"@ + data + "}"@
}

/// The clients of a task list, in order.
pub open spec fn task_clients(t: Seq<(Client, String)>) -> Seq<Client> {
    t.map_values(|p: (Client, String)| p.0)
}

/// Build the envelope text for one candidate.
pub fn make_envelope(candidate: &Candidate) -> (r: String)
    ensures
        r@ == envelope_spec(candidate.payload, candidate.data@),
{
    let mut env: String = "{\"subscription\":\"".to_owned();
    let name = candidate.payload.name();
    env.append(name.as_str());
    env.append("\",\"payload\":");
    env.append(candidate.data.as_str());
    env.append("}");
    proof {
        assert(env@ =~= envelope_spec(candidate.payload, candidate.data@));
    }
    env
}

/// Plan a broadcast: one delivery task per matched client, each carrying
/// the same envelope. A failure of any single delivery is the sender's
/// concern alone; the tasks are independent by construction.
#[verifier::loop_isolation(false)]
pub fn broadcast_tasks(subs: &Subscriptions, candidate: &Candidate) -> (tasks: Vec<
    (Client, String),
>)
    requires
        subs.wf(),
    ensures
        distinct_clients(task_clients(tasks@)),
        candidate.payload.is_vanilla() ==> task_clients(tasks@) == subs.vanilla_seq(
            candidate.payload,
        ),
        candidate.payload == WsPayload::Object ==> (forall|c2: Client|
            task_clients(tasks@).contains(c2) <==> exists|o: Seq<char>|
                objects_of(candidate.data@).contains(o) && #[trigger] subs.rvs_has(o, c2)),
        forall|i: int|
            0 <= i < tasks@.len() ==> (#[trigger] tasks@[i].1@) == envelope_spec(
                candidate.payload,
                candidate.data@,
            ),
{
    let recipients = subs.clients_for_object(candidate);
    let env = make_envelope(candidate);
    let mut tasks: Vec<(Client, String)> = Vec::new();
    let mut k: usize = 0;
    while k < recipients.len()
        invariant
            k <= recipients.len(),
            task_clients(tasks@) == recipients@.subrange(0, k as int),
            forall|i: int|
                0 <= i < tasks@.len() ==> (#[trigger] tasks@[i].1@) == envelope_spec(
                    candidate.payload,
                    candidate.data@,
                ),
        decreases recipients.len() - k,
    {
        tasks.push((recipients[k], env.clone()));
        proof {
            assert(task_clients(tasks@) =~= recipients@.subrange(0, k + 1 as int));
        }
        k = k + 1;
    }
    proof {
        assert(recipients@.subrange(0, recipients@.len() as int) =~= recipients@);
    }
    tasks
}

} // verus!
