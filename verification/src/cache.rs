use vstd::prelude::*;

use crate::data::ArrivalView;
use crate::data::BusArrival;
use crate::data::FeedBody;
use crate::data::FeedBodyView;
use crate::data::FrontendResponse;
use crate::data::GroupView;
use crate::data::RouteGroup;
use crate::data::StopEntry;
use crate::data::StopView;
use crate::transform::transform;
use crate::transform::transform_spec;
use crate::extrapolate_seconds;
use crate::extrapolated_seconds;
use crate::CACHE_DURATION_SECONDS;

verus! {

/// One cached arrival after `elapsed` seconds: its estimate is
/// decremented when above the floor, untouched otherwise; identifier and
/// occupancy stay as they are.
pub open spec fn extrapolated_arrival(a: ArrivalView, elapsed: int) -> ArrivalView {
    ArrivalView {
        bus_id: a.bus_id,
        seconds: extrapolated_seconds(a.seconds, elapsed),
        capacity: a.capacity,
    }
}

/// Every arrival of a list extrapolated, in place.
pub open spec fn extrapolated_arrivals(arrivals: Seq<ArrivalView>, elapsed: int) -> Seq<
    ArrivalView,
> {
    Seq::new(arrivals.len(), |i: int| extrapolated_arrival(arrivals[i], elapsed))
}

/// One group with every arrival extrapolated.
pub open spec fn extrapolated_group(g: GroupView, elapsed: int) -> GroupView {
    GroupView {
        route: g.route,
        destination: g.destination,
        arrivals: extrapolated_arrivals(g.arrivals, elapsed),
    }
}

/// Every group of a list extrapolated, in place.
pub open spec fn extrapolated_groups(groups: Seq<GroupView>, elapsed: int) -> Seq<GroupView> {
    Seq::new(groups.len(), |i: int| extrapolated_group(groups[i], elapsed))
}

/// A whole response with every arrival of every group of every stop
/// extrapolated; nothing else about the shape changes.
pub open spec fn extrapolated_response(resp: Seq<StopView>, elapsed: int) -> Seq<StopView> {
    Seq::new(
        resp.len(),
        |i: int| StopView { stop: resp[i].stop, groups: extrapolated_groups(resp[i].groups, elapsed) },
    )
}

fn extrapolate_arrivals_exec(arrivals: &Vec<BusArrival>, elapsed: i64) -> (r: Vec<BusArrival>)
    requires
        0 <= elapsed,
    ensures
        r.deep_view() == extrapolated_arrivals(arrivals.deep_view(), elapsed as int),
{
    let ghost dv = arrivals.deep_view();
    let ghost goal = extrapolated_arrivals(dv, elapsed as int);
    let mut r: Vec<BusArrival> = Vec::new();
    let mut i: usize = 0;
    while i < arrivals.len()
        invariant
            0 <= i <= arrivals.len(),
            0 <= elapsed,
            dv == arrivals.deep_view(),
            dv.len() == arrivals.len(),
            goal == extrapolated_arrivals(dv, elapsed as int),
            r.deep_view() == goal.take(i as int),
        decreases arrivals.len() - i,
    {
        proof {
            assert(goal.len() == dv.len());
            assert(r.deep_view().len() == i as int);
            assert(r@.len() == i as int);
        }
        let a = &arrivals[i];
        let seconds: i64 = extrapolate_seconds(a.seconds, elapsed);
        r.push(BusArrival { bus_id: a.bus_id.clone(), seconds, capacity: a.capacity.clone() });
        proof {
            assert(r.deep_view() =~~= goal.take(i as int + 1));
        }
        i = i + 1;
    }
    proof {
        assert(goal.take(dv.len() as int) =~= goal);
    }
    r
}

fn extrapolate_groups_exec(groups: &Vec<RouteGroup>, elapsed: i64) -> (r: Vec<RouteGroup>)
    requires
        0 <= elapsed,
    ensures
        r.deep_view() == extrapolated_groups(groups.deep_view(), elapsed as int),
{
    let ghost dv = groups.deep_view();
    let ghost goal = extrapolated_groups(dv, elapsed as int);
    let mut r: Vec<RouteGroup> = Vec::new();
    let mut i: usize = 0;
    while i < groups.len()
        invariant
            0 <= i <= groups.len(),
            0 <= elapsed,
            dv == groups.deep_view(),
            dv.len() == groups.len(),
            goal == extrapolated_groups(dv, elapsed as int),
            r.deep_view() == goal.take(i as int),
        decreases groups.len() - i,
    {
        proof {
            assert(goal.len() == dv.len());
            assert(r.deep_view().len() == i as int);
            assert(r@.len() == i as int);
        }
        let g = &groups[i];
        let arrivals = extrapolate_arrivals_exec(&g.arrivals, elapsed);
        r.push(
            RouteGroup { route: g.route.clone(), destination: g.destination.clone(), arrivals },
        );
        proof {
            assert(r.deep_view() =~~= goal.take(i as int + 1));
        }
        i = i + 1;
    }
    proof {
        assert(goal.take(dv.len() as int) =~= goal);
    }
    r
}

/// A copy of a response with every arrival estimate moved forward by
/// `elapsed` seconds: estimates above the floor are decremented, the rest
/// are left untouched.
pub fn extrapolate(resp: &FrontendResponse, elapsed: i64) -> (r: FrontendResponse)
    requires
        0 <= elapsed,
    ensures
        r.deep_view() == extrapolated_response(resp.deep_view(), elapsed as int),
{
    let ghost dv = resp.deep_view();
    let ghost goal = extrapolated_response(dv, elapsed as int);
    let mut r: Vec<StopEntry> = Vec::new();
    let mut i: usize = 0;
    while i < resp.len()
        invariant
            0 <= i <= resp.len(),
            0 <= elapsed,
            dv == resp.deep_view(),
            dv.len() == resp.len(),
            goal == extrapolated_response(dv, elapsed as int),
            r.deep_view() == goal.take(i as int),
        decreases resp.len() - i,
    {
        proof {
            assert(goal.len() == dv.len());
            assert(r.deep_view().len() == i as int);
            assert(r@.len() == i as int);
        }
        let entry = &resp[i];
        let groups = extrapolate_groups_exec(&entry.groups, elapsed);
        r.push(StopEntry { stop: entry.stop.clone(), groups });
        proof {
            assert(r.deep_view() =~~= goal.take(i as int + 1));
        }
        i = i + 1;
    }
    proof {
        assert(goal.take(dv.len() as int) =~= goal);
    }
    r
}

/// What one refresh cycle computes from the decoded feed body: an empty
/// response when the feed reports an error or carries no predictions,
/// else the transform of the predictions.
pub open spec fn refreshed_response(body: FeedBodyView) -> Seq<StopView> {
    if body.api_error is Some {
        Seq::empty()
    } else {
        match body.predictions {
            Some(preds) => transform_spec(preds),
            None => Seq::empty(),
        }
    }
}

/// The single shared cache: the last stored response and the instant, in
/// whole seconds since the Unix epoch, at which it was stored; absent
/// before the first successful refresh.
pub struct Cache {
    pub last_update: Option<i64>,
    pub data: FrontendResponse,
}

impl Cache {
    /// A stored instant is never negative: it came from a clock reading
    /// at or after the epoch.
    pub open spec fn wf(&self) -> bool {
        match self.last_update {
            Some(l) => 0 <= l,
            None => true,
        }
    }

    /// The cache answers a request at `now` without a new fetch exactly
    /// when a refresh happened at most the cache duration ago.
    pub open spec fn is_fresh(&self, now: int) -> bool {
        match self.last_update {
            Some(l) => l <= now && now - l < CACHE_DURATION_SECONDS as int,
            None => false,
        }
    }

    /// The empty cache a process starts with.
    pub fn new() -> (c: Cache)
        ensures
            c.last_update is None,
            c.data.deep_view() == Seq::<StopView>::empty(),
            c.wf(),
    {
        let c = Cache { last_update: None, data: Vec::new() };
        proof {
            assert(c.data.deep_view() =~= Seq::<StopView>::empty());
        }
        c
    }

    /// Serve from the cache when it is fresh: a copy of the cached
    /// response, extrapolated by the seconds elapsed since the last
    /// refresh. A stale or empty cache yields `None`, and the caller must
    /// refresh instead.
    pub fn try_serve_cached(&self, now: i64) -> (r: Option<FrontendResponse>)
        requires
            self.wf(),
            0 <= now,
        ensures
            r is Some <==> self.is_fresh(now as int),
            match (r, self.last_update) {
                (Some(resp), Some(l)) => resp.deep_view() == extrapolated_response(
                    self.data.deep_view(),
                    now - l,
                ),
                _ => true,
            },
    {
        match self.last_update {
            Some(l) => {
                if l <= now && now - l < CACHE_DURATION_SECONDS {
                    Some(extrapolate(&self.data, now - l))
                } else {
                    None
                }
            },
            None => None,
        }
    }

    /// Replace the cached response wholesale and mark the refresh
    /// instant.
    pub fn store(&mut self, data: FrontendResponse, now: i64)
        requires
            0 <= now,
        ensures
            final(self).last_update == Some(now),
            final(self).data == data,
            final(self).wf(),
    {
        self.data = data;
        self.last_update = Some(now);
    }
}

/// What one refresh cycle computes, outside the cache lock, from the
/// decoded feed body: a feed reporting an error (or carrying no
/// predictions) yields an empty response, otherwise the predictions are
/// transformed. The caller stores the result under the lock and serves it
/// with no extrapolation applied.
pub fn refreshed_data(body: FeedBody) -> (r: FrontendResponse)
    ensures
        r.deep_view() == refreshed_response(body.deep_view()),
{
    let ghost bv = body.deep_view();
    let has_error = body.api_error.is_some();
    let data: FrontendResponse = if has_error {
        Vec::new()
    } else {
        match body.predictions {
            Some(preds) => transform(&preds),
            None => Vec::new(),
        }
    };
    proof {
        assert(data.deep_view() =~= refreshed_response(bv));
    }
    data
}

} // verus!
