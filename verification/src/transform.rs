use vstd::prelude::*;

use crate::data::arrivals_sorted;
use crate::data::groups_well_formed;
use crate::data::response_well_formed;
use crate::data::ArrivalView;
use crate::data::BusArrival;
use crate::data::FrontendResponse;
use crate::data::GroupView;
use crate::data::PredictionView;
use crate::data::RawPrediction;
use crate::data::RouteGroup;
use crate::data::StopEntry;
use crate::data::StopView;
use crate::times::parse_timestamp;
use crate::times::parsed_timestamp;

verus! {

/// The arrival a prediction contributes: its vehicle identifier, the
/// difference of its two parsed timestamps in whole seconds, and its
/// occupancy label. `None` when either timestamp fails to parse, in which
/// case the prediction is skipped.
pub open spec fn prediction_arrival(p: PredictionView) -> Option<ArrivalView> {
    match (parsed_timestamp(p.tmstmp), parsed_timestamp(p.prdtm)) {
        (Some(obs), Some(prd)) => Some(
            ArrivalView { bus_id: p.vid, seconds: prd - obs, capacity: p.psgld },
        ),
        _ => None,
    }
}

/// The index at which a new arrival with the given seconds value is
/// inserted: just past every arrival whose seconds are less than or equal,
/// as a stable re-sort after an append would place it.
pub open spec fn insert_position(arrivals: Seq<ArrivalView>, seconds: int) -> int
    decreases arrivals.len(),
{
    if arrivals.len() == 0 {
        0
    } else if arrivals[0].seconds <= seconds {
        1 + insert_position(arrivals.drop_first(), seconds)
    } else {
        0
    }
}

/// A new arrival placed at its insert position.
pub open spec fn insert_sorted(arrivals: Seq<ArrivalView>, a: ArrivalView) -> Seq<ArrivalView> {
    let i = insert_position(arrivals, a.seconds);
    arrivals.take(i) + seq![a] + arrivals.skip(i)
}

/// The index of the first group with the given route and destination pair;
/// the length when there is none.
pub open spec fn first_group_index(groups: Seq<GroupView>, rt: Seq<char>, des: Seq<char>) -> int
    decreases groups.len(),
{
    if groups.len() == 0 {
        0
    } else if groups[0].route == rt && groups[0].destination == des {
        0
    } else {
        1 + first_group_index(groups.drop_first(), rt, des)
    }
}

/// The index of the first entry for the given stop; the length when there
/// is none.
pub open spec fn first_stop_index(resp: Seq<StopView>, stop: Seq<char>) -> int
    decreases resp.len(),
{
    if resp.len() == 0 {
        0
    } else if resp[0].stop == stop {
        0
    } else {
        1 + first_stop_index(resp.drop_first(), stop)
    }
}

/// One stop's group list after taking in one arrival for a route and
/// destination pair: appended to the matching group's sorted arrivals when
/// such a group exists, otherwise a fresh single-arrival group at the end.
pub open spec fn add_to_groups(
    groups: Seq<GroupView>,
    rt: Seq<char>,
    des: Seq<char>,
    a: ArrivalView,
) -> Seq<GroupView> {
    let gi = first_group_index(groups, rt, des);
    if gi == groups.len() {
        groups.push(GroupView { route: rt, destination: des, arrivals: seq![a] })
    } else {
        groups.update(
            gi,
            GroupView {
                route: groups[gi].route,
                destination: groups[gi].destination,
                arrivals: insert_sorted(groups[gi].arrivals, a),
            },
        )
    }
}

/// The response after taking in one arrival for a stop: the stop's entry
/// is extended when it exists, otherwise a fresh entry goes at the end.
pub open spec fn add_arrival(
    resp: Seq<StopView>,
    stop: Seq<char>,
    rt: Seq<char>,
    des: Seq<char>,
    a: ArrivalView,
) -> Seq<StopView> {
    let si = first_stop_index(resp, stop);
    if si == resp.len() {
        resp.push(
            StopView {
                stop,
                groups: seq![GroupView { route: rt, destination: des, arrivals: seq![a] }],
            },
        )
    } else {
        resp.update(
            si,
            StopView { stop: resp[si].stop, groups: add_to_groups(resp[si].groups, rt, des, a) },
        )
    }
}

/// The response after taking in one prediction: unchanged when a timestamp
/// fails to parse, else extended with the prediction's arrival.
pub open spec fn add_prediction(resp: Seq<StopView>, p: PredictionView) -> Seq<StopView> {
    match prediction_arrival(p) {
        None => resp,
        Some(a) => add_arrival(resp, p.stpid, p.rt, p.des, a),
    }
}

/// The whole transform: the predictions taken in one after the other, in
/// order, starting from the empty response.
pub open spec fn transform_spec(preds: Seq<PredictionView>) -> Seq<StopView>
    decreases preds.len(),
{
    if preds.len() == 0 {
        Seq::empty()
    } else {
        add_prediction(transform_spec(preds.drop_last()), preds.last())
    }
}

/// `insert_position` points just past the arrivals at or below the given
/// seconds value and, when inside the list, at one strictly above it.
pub proof fn lemma_insert_position(arrivals: Seq<ArrivalView>, seconds: int)
    ensures
        0 <= insert_position(arrivals, seconds) <= arrivals.len(),
        forall|j: int|
            0 <= j < insert_position(arrivals, seconds) ==> #[trigger] arrivals[j].seconds
                <= seconds,
        insert_position(arrivals, seconds) < arrivals.len() ==> arrivals[insert_position(
            arrivals,
            seconds,
        )].seconds > seconds,
    decreases arrivals.len(),
{
    if arrivals.len() > 0 && arrivals[0].seconds <= seconds {
        lemma_insert_position(arrivals.drop_first(), seconds);
        assert forall|j: int| 0 <= j < insert_position(arrivals, seconds) implies #[trigger] arrivals[j].seconds
            <= seconds by {
            if j > 0 {
                assert(arrivals.drop_first()[j - 1] == arrivals[j]);
            }
        }
    }
}

/// Before `first_group_index` no group matches the pair, and the group
/// there, when inside the list, does.
pub proof fn lemma_first_group_index(groups: Seq<GroupView>, rt: Seq<char>, des: Seq<char>)
    ensures
        0 <= first_group_index(groups, rt, des) <= groups.len(),
        forall|j: int|
            0 <= j < first_group_index(groups, rt, des) ==> !((#[trigger] groups[j]).route == rt
                && groups[j].destination == des),
        first_group_index(groups, rt, des) < groups.len() ==> (groups[first_group_index(
            groups,
            rt,
            des,
        )].route == rt && groups[first_group_index(groups, rt, des)].destination == des),
    decreases groups.len(),
{
    if groups.len() > 0 && !(groups[0].route == rt && groups[0].destination == des) {
        lemma_first_group_index(groups.drop_first(), rt, des);
        assert forall|j: int| 0 <= j < first_group_index(groups, rt, des) implies !((
        #[trigger] groups[j]).route == rt && groups[j].destination == des) by {
            if j > 0 {
                assert(groups.drop_first()[j - 1] == groups[j]);
            }
        }
    }
}

/// Before `first_stop_index` no entry carries the stop, and the entry
/// there, when inside the list, does.
pub proof fn lemma_first_stop_index(resp: Seq<StopView>, stop: Seq<char>)
    ensures
        0 <= first_stop_index(resp, stop) <= resp.len(),
        forall|j: int|
            0 <= j < first_stop_index(resp, stop) ==> (#[trigger] resp[j]).stop != stop,
        first_stop_index(resp, stop) < resp.len() ==> resp[first_stop_index(resp, stop)].stop
            == stop,
    decreases resp.len(),
{
    if resp.len() > 0 && resp[0].stop != stop {
        lemma_first_stop_index(resp.drop_first(), stop);
        assert forall|j: int| 0 <= j < first_stop_index(resp, stop) implies (
        #[trigger] resp[j]).stop != stop by {
            if j > 0 {
                assert(resp.drop_first()[j - 1] == resp[j]);
            }
        }
    }
}

/// How many predictions of a batch the transform skips for an unparsable
/// timestamp.
pub open spec fn skipped_count(preds: Seq<PredictionView>) -> int
    decreases preds.len(),
{
    if preds.len() == 0 {
        0
    } else {
        skipped_count(preds.drop_last()) + if prediction_arrival(preds.last()) is None {
            1int
        } else {
            0int
        }
    }
}

/// Placing an arrival at its insert position keeps the list sorted.
proof fn lemma_insert_sorted_preserves_sorted(arrivals: Seq<ArrivalView>, a: ArrivalView)
    requires
        arrivals_sorted(arrivals),
    ensures
        arrivals_sorted(insert_sorted(arrivals, a)),
{
    lemma_insert_position(arrivals, a.seconds);
    let pos = insert_position(arrivals, a.seconds);
    let out = insert_sorted(arrivals, a);
    assert(out.len() == arrivals.len() + 1);
    assert forall|i: int, j: int| 0 <= i < j < out.len() implies out[i].seconds
        <= out[j].seconds by {
        assert(forall|k: int| 0 <= k < pos ==> out[k] == arrivals[k]);
        assert(out[pos] == a);
        assert(forall|k: int| pos < k < out.len() ==> out[k] == arrivals[k - 1]);
        if j < pos {
            assert(arrivals[i].seconds <= arrivals[j].seconds);
        } else if j == pos {
            assert(arrivals[i].seconds <= a.seconds);
        } else if i < pos {
            assert(arrivals[i].seconds <= a.seconds);
            assert(a.seconds < arrivals[pos].seconds);
            assert(arrivals[pos].seconds <= arrivals[j - 1].seconds);
        } else if i == pos {
            assert(a.seconds < arrivals[pos].seconds);
            assert(arrivals[pos].seconds <= arrivals[j - 1].seconds);
        } else {
            assert(arrivals[i - 1].seconds <= arrivals[j - 1].seconds);
        }
    }
}

/// Taking one arrival into a stop's group list keeps it well formed: the
/// route and destination pairs stay pairwise distinct and every group's
/// arrivals stay sorted.
proof fn lemma_add_to_groups_wf(groups: Seq<GroupView>, rt: Seq<char>, des: Seq<char>, a: ArrivalView)
    requires
        groups_well_formed(groups),
    ensures
        groups_well_formed(add_to_groups(groups, rt, des, a)),
{
    lemma_first_group_index(groups, rt, des);
    let gi = first_group_index(groups, rt, des);
    let out = add_to_groups(groups, rt, des, a);
    if gi == groups.len() {
        assert forall|i: int, j: int| 0 <= i < j < out.len() implies !((#[trigger] out[i]).route
            == (#[trigger] out[j]).route && out[i].destination == out[j].destination) by {
            if j == groups.len() {
                assert(out[i] == groups[i]);
                assert(!(groups[i].route == rt && groups[i].destination == des));
            } else {
                assert(out[i] == groups[i] && out[j] == groups[j]);
            }
        }
        assert forall|i: int| 0 <= i < out.len() implies arrivals_sorted(
            #[trigger] out[i].arrivals,
        ) by {
            if i < groups.len() {
                assert(out[i] == groups[i]);
            } else {
                assert(out[i].arrivals == seq![a]);
            }
        }
    } else {
        lemma_insert_sorted_preserves_sorted(groups[gi].arrivals, a);
        assert forall|i: int, j: int| 0 <= i < j < out.len() implies !((#[trigger] out[i]).route
            == (#[trigger] out[j]).route && out[i].destination == out[j].destination) by {
            assert(out[i].route == groups[i].route && out[i].destination == groups[i].destination);
            assert(out[j].route == groups[j].route && out[j].destination == groups[j].destination);
        }
        assert forall|i: int| 0 <= i < out.len() implies arrivals_sorted(
            #[trigger] out[i].arrivals,
        ) by {
            if i != gi {
                assert(out[i] == groups[i]);
            }
        }
    }
}

/// Taking one arrival into the response keeps it well formed: stop
/// identifiers stay pairwise distinct and every stop's group list stays
/// well formed.
proof fn lemma_add_arrival_wf(
    resp: Seq<StopView>,
    stop: Seq<char>,
    rt: Seq<char>,
    des: Seq<char>,
    a: ArrivalView,
)
    requires
        response_well_formed(resp),
    ensures
        response_well_formed(add_arrival(resp, stop, rt, des, a)),
{
    lemma_first_stop_index(resp, stop);
    let si = first_stop_index(resp, stop);
    let out = add_arrival(resp, stop, rt, des, a);
    if si == resp.len() {
        assert forall|i: int, j: int| 0 <= i < j < out.len() implies (#[trigger] out[i]).stop != (
        #[trigger] out[j]).stop by {
            if j == resp.len() {
                assert(out[i] == resp[i]);
                assert(resp[i].stop != stop);
            } else {
                assert(out[i] == resp[i] && out[j] == resp[j]);
            }
        }
        assert forall|i: int| 0 <= i < out.len() implies groups_well_formed(
            #[trigger] out[i].groups,
        ) by {
            if i < resp.len() {
                assert(out[i] == resp[i]);
            } else {
                let g = GroupView { route: rt, destination: des, arrivals: seq![a] };
                assert(out[i].groups == seq![g]);
                assert(arrivals_sorted(seq![a]));
            }
        }
    } else {
        lemma_add_to_groups_wf(resp[si].groups, rt, des, a);
        assert forall|i: int, j: int| 0 <= i < j < out.len() implies (#[trigger] out[i]).stop != (
        #[trigger] out[j]).stop by {
            assert(out[i].stop == resp[i].stop);
            assert(out[j].stop == resp[j].stop);
        }
        assert forall|i: int| 0 <= i < out.len() implies groups_well_formed(
            #[trigger] out[i].groups,
        ) by {
            if i != si {
                assert(out[i] == resp[i]);
            }
        }
    }
}

/// Every output of the transform is well formed: every (stop, route,
/// destination) triple appears in at most one group of the response, and
/// within every group the arrivals are sorted ascending by their
/// seconds-until-arrival.
pub proof fn lemma_transform_well_formed(preds: Seq<PredictionView>)
    ensures
        response_well_formed(transform_spec(preds)),
    decreases preds.len(),
{
    if preds.len() > 0 {
        lemma_transform_well_formed(preds.drop_last());
        let p = preds.last();
        match prediction_arrival(p) {
            None => {},
            Some(a) => {
                lemma_add_arrival_wf(transform_spec(preds.drop_last()), p.stpid, p.rt, p.des, a);
            },
        }
    }
}

/// A prediction whose predicted-arrival or observation timestamp does not
/// parse contributes nothing: the transform of a batch extended by such a
/// prediction is the transform of the batch alone.
pub proof fn lemma_bad_timestamp_skipped(preds: Seq<PredictionView>, p: PredictionView)
    requires
        parsed_timestamp(p.tmstmp) is None || parsed_timestamp(p.prdtm) is None,
    ensures
        transform_spec(preds.push(p)) == transform_spec(preds),
{
    let all = preds.push(p);
    assert(all.drop_last() =~= preds);
    assert(all.last() == p);
}

/// The transform is a pure function of its input sequence: two responses
/// computed from the same predictions are one and the same value.
pub proof fn lemma_transform_deterministic(
    preds: Seq<PredictionView>,
    r1: Seq<StopView>,
    r2: Seq<StopView>,
)
    requires
        r1 == transform_spec(preds),
        r2 == transform_spec(preds),
    ensures
        r1 == r2,
{
}

/// Taking one more prediction into the running transform is one
/// `add_prediction` step.
proof fn lemma_transform_step(preds: Seq<PredictionView>, i: int)
    requires
        0 <= i < preds.len(),
    ensures
        transform_spec(preds.take(i + 1)) == add_prediction(
            transform_spec(preds.take(i)),
            preds[i],
        ),
{
    let t1 = preds.take(i + 1);
    assert(t1.drop_last() =~= preds.take(i));
    assert(t1.last() == preds[i]);
}

/// Find the index of the entry for `stop`, or the length when there is
/// none.
fn find_stop(entries: &Vec<StopEntry>, stop: &String) -> (i: usize)
    ensures
        i as int == first_stop_index(entries.deep_view(), stop@),
{
    let ghost dv = entries.deep_view();
    proof {
        lemma_first_stop_index(dv, stop@);
    }
    let mut i: usize = 0;
    while i < entries.len()
        invariant
            0 <= i <= entries.len(),
            dv == entries.deep_view(),
            dv.len() == entries.len(),
            forall|j: int| 0 <= j < i ==> (#[trigger] dv[j]).stop != stop@,
            0 <= first_stop_index(dv, stop@) <= dv.len(),
            forall|j: int|
                0 <= j < first_stop_index(dv, stop@) ==> (#[trigger] dv[j]).stop != stop@,
            first_stop_index(dv, stop@) < dv.len() ==> dv[first_stop_index(dv, stop@)].stop
                == stop@,
        decreases entries.len() - i,
    {
        if entries[i].stop == *stop {
            proof {
                let fi = first_stop_index(dv, stop@);
                assert(dv[i as int].stop == stop@);
                if fi < i {
                    assert(dv[fi].stop != stop@);
                } else if fi > i as int {
                    assert(dv[i as int].stop != stop@);
                }
            }
            return i;
        }
        i = i + 1;
    }
    proof {
        let fi = first_stop_index(dv, stop@);
        if fi < dv.len() {
            assert(dv[fi].stop != stop@);
        }
    }
    i
}

/// Find the index of the first group with the given route and destination
/// pair, or the length when there is none.
fn find_group(groups: &Vec<RouteGroup>, rt: &String, des: &String) -> (i: usize)
    ensures
        i as int == first_group_index(groups.deep_view(), rt@, des@),
{
    let ghost dv = groups.deep_view();
    proof {
        lemma_first_group_index(dv, rt@, des@);
    }
    let mut i: usize = 0;
    while i < groups.len()
        invariant
            0 <= i <= groups.len(),
            dv == groups.deep_view(),
            dv.len() == groups.len(),
            forall|j: int|
                0 <= j < i ==> !((#[trigger] dv[j]).route == rt@ && dv[j].destination == des@),
            0 <= first_group_index(dv, rt@, des@) <= dv.len(),
            forall|j: int|
                0 <= j < first_group_index(dv, rt@, des@) ==> !((#[trigger] dv[j]).route == rt@
                    && dv[j].destination == des@),
            first_group_index(dv, rt@, des@) < dv.len() ==> (dv[first_group_index(
                dv,
                rt@,
                des@,
            )].route == rt@ && dv[first_group_index(dv, rt@, des@)].destination == des@),
        decreases groups.len() - i,
    {
        if groups[i].route == *rt && groups[i].destination == *des {
            proof {
                let fi = first_group_index(dv, rt@, des@);
                assert(dv[i as int].route == rt@ && dv[i as int].destination == des@);
                if fi < i {
                    assert(!(dv[fi].route == rt@ && dv[fi].destination == des@));
                } else if fi > i as int {
                    assert(!(dv[i as int].route == rt@ && dv[i as int].destination == des@));
                }
            }
            return i;
        }
        i = i + 1;
    }
    proof {
        let fi = first_group_index(dv, rt@, des@);
        if fi < dv.len() {
            assert(!(dv[fi].route == rt@ && dv[fi].destination == des@));
        }
    }
    i
}

/// Find the position at which a new arrival with the given seconds value
/// is inserted: just past every arrival at or below it.
fn find_insert_position(arrivals: &Vec<BusArrival>, seconds: i64) -> (i: usize)
    ensures
        i as int == insert_position(arrivals.deep_view(), seconds as int),
{
    let ghost dv = arrivals.deep_view();
    proof {
        lemma_insert_position(dv, seconds as int);
    }
    let mut i: usize = 0;
    while i < arrivals.len()
        invariant
            0 <= i <= arrivals.len(),
            dv == arrivals.deep_view(),
            dv.len() == arrivals.len(),
            forall|j: int| 0 <= j < i ==> (#[trigger] dv[j]).seconds <= seconds,
            0 <= insert_position(dv, seconds as int) <= dv.len(),
            forall|j: int|
                0 <= j < insert_position(dv, seconds as int) ==> (#[trigger] dv[j]).seconds
                    <= seconds,
            insert_position(dv, seconds as int) < dv.len() ==> dv[insert_position(
                dv,
                seconds as int,
            )].seconds > seconds,
        decreases arrivals.len() - i,
    {
        if arrivals[i].seconds > seconds {
            proof {
                let fi = insert_position(dv, seconds as int);
                assert(dv[i as int].seconds > seconds);
                if fi < i {
                    assert(dv[fi].seconds > seconds && dv[fi].seconds <= seconds);
                } else if fi > i as int {
                    assert(dv[i as int].seconds <= seconds);
                }
            }
            return i;
        }
        i = i + 1;
    }
    proof {
        let fi = insert_position(dv, seconds as int);
        if fi < dv.len() {
            assert(dv[fi].seconds <= seconds);
        }
    }
    i
}

/// Place one arrival into a sorted arrival list at its insert position.
fn insert_arrival_sorted(arrivals: &mut Vec<BusArrival>, arrival: BusArrival)
    ensures
        final(arrivals).deep_view() == insert_sorted(old(arrivals).deep_view(), arrival.deep_view()),
{
    let ghost pre = arrivals.deep_view();
    let i = find_insert_position(arrivals, arrival.seconds);
    proof {
        lemma_insert_position(pre, arrival.seconds as int);
    }
    arrivals.insert(i, arrival);
    proof {
        assert(arrivals.deep_view() =~~= insert_sorted(pre, arrival.deep_view()));
    }
}

/// Take one arrival for (stop, route, destination) into the response,
/// extending the stop's entry when it exists and appending a fresh one
/// otherwise.
fn add_arrival_exec(
    output: &mut Vec<StopEntry>,
    stop: String,
    rt: String,
    des: String,
    arrival: BusArrival,
)
    ensures
        final(output).deep_view() == add_arrival(
            old(output).deep_view(),
            stop@,
            rt@,
            des@,
            arrival.deep_view(),
        ),
{
    let ghost pre = output.deep_view();
    let si = find_stop(output, &stop);
    proof {
        lemma_first_stop_index(pre, stop@);
    }
    if si == output.len() {
        let group = RouteGroup { route: rt, destination: des, arrivals: vec![arrival] };
        output.push(StopEntry { stop, groups: vec![group] });
        proof {
            assert(output.deep_view() =~~= add_arrival(
                pre,
                stop@,
                rt@,
                des@,
                arrival.deep_view(),
            ));
        }
    } else {
        let mut entry = output.remove(si);
        let ghost pre_groups = entry.groups.deep_view();
        let gi = find_group(&entry.groups, &rt, &des);
        proof {
            lemma_first_group_index(pre_groups, rt@, des@);
        }
        if gi == entry.groups.len() {
            entry.groups.push(RouteGroup { route: rt, destination: des, arrivals: vec![arrival] });
        } else {
            let mut group = entry.groups.remove(gi);
            insert_arrival_sorted(&mut group.arrivals, arrival);
            entry.groups.insert(gi, group);
        }
        proof {
            assert(entry.groups.deep_view() =~~= add_to_groups(
                pre_groups,
                rt@,
                des@,
                arrival.deep_view(),
            ));
        }
        output.insert(si, entry);
        proof {
            assert(output.deep_view() =~~= add_arrival(
                pre,
                stop@,
                rt@,
                des@,
                arrival.deep_view(),
            ));
        }
    }
}

/// One more prediction raises the skip count by one exactly when it does
/// not parse.
proof fn lemma_skipped_count_step(preds: Seq<PredictionView>, i: int)
    requires
        0 <= i < preds.len(),
    ensures
        skipped_count(preds.take(i + 1)) == skipped_count(preds.take(i)) + if prediction_arrival(
            preds[i],
        ) is None {
            1int
        } else {
            0int
        },
{
    let t1 = preds.take(i + 1);
    assert(t1.drop_last() =~= preds.take(i));
    assert(t1.last() == preds[i]);
}

/// Count the predictions of a batch that the transform skips for an
/// unparsable timestamp, so that the silent drop is observable to callers
/// and operators.
pub fn count_skipped(predictions: &Vec<RawPrediction>) -> (n: usize)
    ensures
        n as int == skipped_count(predictions.deep_view()),
{
    let ghost pdv = predictions.deep_view();
    let mut n: usize = 0;
    let mut idx: usize = 0;
    proof {
        assert(pdv.take(0) =~= Seq::<PredictionView>::empty());
    }
    while idx < predictions.len()
        invariant
            0 <= idx <= predictions.len(),
            pdv == predictions.deep_view(),
            pdv.len() == predictions.len(),
            n <= idx,
            n as int == skipped_count(pdv.take(idx as int)),
        decreases predictions.len() - idx,
    {
        let p = &predictions[idx];
        let obs = parse_timestamp(p.tmstmp.as_str());
        let prd = parse_timestamp(p.prdtm.as_str());
        proof {
            lemma_skipped_count_step(pdv, idx as int);
        }
        if obs.is_none() || prd.is_none() {
            n = n + 1;
        }
        idx = idx + 1;
    }
    proof {
        assert(pdv.take(pdv.len() as int) =~= pdv);
    }
    n
}

/// Turn a flat list of raw predictions into the nested response shape:
/// group by stop, then by route and destination pair in first-seen order,
/// with each group's arrivals sorted ascending by seconds-until-arrival.
/// A prediction whose timestamps do not parse is skipped; the rest of the
/// batch still goes through.
pub fn transform(predictions: &Vec<RawPrediction>) -> (r: FrontendResponse)
    ensures
        r.deep_view() == transform_spec(predictions.deep_view()),
{
    let ghost pdv = predictions.deep_view();
    let mut output: Vec<StopEntry> = Vec::new();
    let mut idx: usize = 0;
    proof {
        assert(output.deep_view() =~= transform_spec(pdv.take(0)));
    }
    while idx < predictions.len()
        invariant
            0 <= idx <= predictions.len(),
            pdv == predictions.deep_view(),
            pdv.len() == predictions.len(),
            output.deep_view() == transform_spec(pdv.take(idx as int)),
        decreases predictions.len() - idx,
    {
        let p = &predictions[idx];
        let obs = parse_timestamp(p.tmstmp.as_str());
        let prd = parse_timestamp(p.prdtm.as_str());
        proof {
            lemma_transform_step(pdv, idx as int);
        }
        match (obs, prd) {
            (Some(observed), Some(predicted)) => {
                let seconds: i64 = predicted - observed;
                let arrival = BusArrival {
                    bus_id: p.vid.clone(),
                    seconds,
                    capacity: p.psgld.clone(),
                };
                add_arrival_exec(&mut output, p.stpid.clone(), p.rt.clone(), p.des.clone(), arrival);
            },
            _ => {},
        }
        idx = idx + 1;
    }
    proof {
        assert(pdv.take(pdv.len() as int) =~= pdv);
    }
    output
}

} // verus!
