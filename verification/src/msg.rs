//! Framing of the messages this service pushes to connected sessions: the
//! initial snapshot, the per-request invalidation delta, and the global
//! drift-reset broadcast. Every message is JSON text built here, so that its
//! exact content is pinned down against the route/timestamp pairs it carries.
use crate::digits::{dec_int, push_dec_i64};
use vstd::prelude::*;
use vstd::string::*;

verus! {

/// What `serde_json` renders a string to: the quoted, escaped JSON string
/// literal holding exactly those characters.
pub uninterp spec fn json_quote_of(s: Seq<char>) -> Seq<char>;

/// Relies on `serde_json::to_string` for a string slice: it returns the JSON
/// string literal for exactly the given characters, and it cannot fail for a
/// string (the `str` serializer never errors).
#[verifier::external_body]
fn json_quote(s: &String) -> (r: String)
    ensures
        r@ == json_quote_of(s@),
{
    match serde_json::to_string(s.as_str()) {
        Ok(q) => q,
        Err(_) => String::new(),
    }
}

/// The view of the pairs a message carries.
pub open spec fn pair_views(s: Seq<(String, i64)>) -> Seq<(Seq<char>, i64)> {
    s.map(|i: int, p: (String, i64)| (p.0@, p.1))
}

/// One `"route":timestamp` member of a JSON object.
pub open spec fn member_of(k: Seq<char>, v: i64) -> Seq<char> {
    json_quote_of(k) + ":"@ + dec_int(v as int)
}

/// The comma-separated members of a JSON object, in entry order.
pub open spec fn members_of(ps: Seq<(Seq<char>, i64)>) -> Seq<char>
    decreases ps.len(),
{
    if ps.len() == 0 {
        Seq::empty()
    } else if ps.len() == 1 {
        member_of(ps[0].0, ps[0].1)
    } else {
        members_of(ps.drop_last()) + ","@ + member_of(ps.last().0, ps.last().1)
    }
}

/// A JSON object mapping each route to its timestamp, in entry order.
pub open spec fn object_of(ps: Seq<(Seq<char>, i64)>) -> Seq<char> {
    "{"@ + members_of(ps) + "}"@
}

/// The snapshot sent once to a newly admitted session: the plain object of
/// its project's route/timestamp state (possibly empty).
pub open spec fn snapshot_message_of(ps: Seq<(Seq<char>, i64)>) -> Seq<char> {
    object_of(ps)
}

/// The delta broadcast after a normal invalidation: the routes just updated
/// and the current drift provenance value.
pub open spec fn delta_message_of(ps: Seq<(Seq<char>, i64)>, drift_time: i64) -> Seq<char> {
    "{\"type\":\"invalidate-delta\",\"data\":"@ + object_of(ps) + ",\"drift_time\":"@ + dec_int(
        drift_time as int,
    ) + "}"@
}

/// The drift-reset broadcast: an empty delta carrying the drift timestamp.
pub open spec fn drift_message_of(drift_time: i64) -> Seq<char> {
    "{\"type\":\"invalidate\",\"data\":{},\"drift_time\":"@ + dec_int(drift_time as int) + "}"@
}

/// Append the members of the object for `pairs`.
fn push_members(s: &mut String, pairs: &Vec<(String, i64)>)
    ensures
        final(s)@ == old(s)@ + members_of(pair_views(pairs@)),
{
    proof {
        reveal_strlit(":");
        reveal_strlit(",");
    }
    let mut i: usize = 0;
    while i < pairs.len()
        invariant
            i <= pairs@.len(),
            s@ == old(s)@ + members_of(pair_views(pairs@).take(i as int)),
        decreases pairs@.len() - i,
    {
        let ghost done = pair_views(pairs@).take(i as int);
        if i > 0 {
            s.append(",");
        }
        let q = json_quote(&pairs[i].0);
        s.append(q.as_str());
        s.append(":");
        push_dec_i64(s, pairs[i].1);
        proof {
            let next = pair_views(pairs@).take(i as int + 1);
            assert(next.drop_last() =~= done);
            assert(next.last() == pair_views(pairs@)[i as int]);
            if i == 0 {
                assert(s@ =~= old(s)@ + members_of(next));
            } else {
                assert(s@ =~= old(s)@ + members_of(next));
            }
        }
        i = i + 1;
    }
    proof {
        assert(pair_views(pairs@).take(pairs@.len() as int) =~= pair_views(pairs@));
    }
}

/// The JSON object for `pairs`, in entry order.
pub fn build_object(pairs: &Vec<(String, i64)>) -> (r: String)
    ensures
        r@ == object_of(pair_views(pairs@)),
{
    proof {
        reveal_strlit("{");
        reveal_strlit("}");
    }
    let mut s = String::new();
    s.append("{");
    proof {
        assert(s@ =~= "{"@);
    }
    push_members(&mut s, pairs);
    s.append("}");
    proof {
        assert(s@ =~= object_of(pair_views(pairs@)));
    }
    s
}

/// The initial snapshot message for a project's state.
pub fn build_snapshot_message(pairs: &Vec<(String, i64)>) -> (r: String)
    ensures
        r@ == snapshot_message_of(pair_views(pairs@)),
{
    build_object(pairs)
}

/// The delta message for the routes an invalidation just updated.
pub fn build_delta_message(pairs: &Vec<(String, i64)>, drift_time: i64) -> (r: String)
    ensures
        r@ == delta_message_of(pair_views(pairs@), drift_time),
{
    proof {
        reveal_strlit("{\"type\":\"invalidate-delta\",\"data\":");
        reveal_strlit(",\"drift_time\":");
        reveal_strlit("}");
    }
    let mut s = String::from_str("{\"type\":\"invalidate-delta\",\"data\":");
    let obj = build_object(pairs);
    s.append(obj.as_str());
    s.append(",\"drift_time\":");
    push_dec_i64(&mut s, drift_time);
    s.append("}");
    proof {
        assert(s@ =~= delta_message_of(pair_views(pairs@), drift_time));
    }
    s
}

/// The drift-reset message broadcast to every session after a detected
/// backward clock jump.
pub fn build_drift_message(drift_time: i64) -> (r: String)
    ensures
        r@ == drift_message_of(drift_time),
{
    proof {
        reveal_strlit("{\"type\":\"invalidate\",\"data\":{},\"drift_time\":");
        reveal_strlit("}");
    }
    let mut s = String::from_str("{\"type\":\"invalidate\",\"data\":{},\"drift_time\":");
    push_dec_i64(&mut s, drift_time);
    s.append("}");
    proof {
        assert(s@ =~= drift_message_of(drift_time));
    }
    s
}

} // verus!
