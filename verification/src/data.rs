use vstd::prelude::*;

verus! {

/// One vehicle's arrival prediction as reported by the upstream feed,
/// already decoded into plain strings. Field names follow the feed's
/// own wire names.
#[derive(Debug, Clone, PartialEq, Eq)]
pub struct RawPrediction {
    /// Route identifier.
    pub rt: String,
    /// Destination label.
    pub des: String,
    /// Stop identifier.
    pub stpid: String,
    /// Vehicle identifier.
    pub vid: String,
    /// Observation timestamp in the feed's fixed format.
    pub tmstmp: String,
    /// Predicted-arrival timestamp in the feed's fixed format.
    pub prdtm: String,
    /// Occupancy label; may be empty.
    pub psgld: String,
}

/// The mathematical value of a `RawPrediction`.
#[verifier::ext_equal]
pub ghost struct PredictionView {
    pub rt: Seq<char>,
    pub des: Seq<char>,
    pub stpid: Seq<char>,
    pub vid: Seq<char>,
    pub tmstmp: Seq<char>,
    pub prdtm: Seq<char>,
    pub psgld: Seq<char>,
}

impl DeepView for RawPrediction {
    type V = PredictionView;

    open spec fn deep_view(&self) -> PredictionView {
        PredictionView {
            rt: self.rt@,
            des: self.des@,
            stpid: self.stpid@,
            vid: self.vid@,
            tmstmp: self.tmstmp@,
            prdtm: self.prdtm@,
            psgld: self.psgld@,
        }
    }
}

/// One bus in the client-facing shape: its identifier, the whole seconds
/// until its predicted arrival (negative when the bus is already late past
/// its prediction), and its occupancy label.
#[derive(Debug, Clone, PartialEq, Eq)]
pub struct BusArrival {
    pub bus_id: String,
    pub seconds: i64,
    pub capacity: String,
}

/// The mathematical value of a `BusArrival`.
#[verifier::ext_equal]
pub ghost struct ArrivalView {
    pub bus_id: Seq<char>,
    pub seconds: int,
    pub capacity: Seq<char>,
}

impl DeepView for BusArrival {
    type V = ArrivalView;

    open spec fn deep_view(&self) -> ArrivalView {
        ArrivalView { bus_id: self.bus_id@, seconds: self.seconds as int, capacity: self.capacity@ }
    }
}

/// All arrivals for one route and destination pair at one stop, kept
/// sorted ascending by seconds-until-arrival.
#[derive(Debug, Clone, PartialEq, Eq)]
pub struct RouteGroup {
    pub route: String,
    pub destination: String,
    pub arrivals: Vec<BusArrival>,
}

/// The mathematical value of a `RouteGroup`.
#[verifier::ext_equal]
pub ghost struct GroupView {
    pub route: Seq<char>,
    pub destination: Seq<char>,
    pub arrivals: Seq<ArrivalView>,
}

impl DeepView for RouteGroup {
    type V = GroupView;

    open spec fn deep_view(&self) -> GroupView {
        GroupView {
            route: self.route@,
            destination: self.destination@,
            arrivals: self.arrivals.deep_view(),
        }
    }
}

/// All route groups for one stop, in first-seen order of their
/// route and destination pairs.
#[derive(Debug, Clone, PartialEq, Eq)]
pub struct StopEntry {
    pub stop: String,
    pub groups: Vec<RouteGroup>,
}

/// The mathematical value of a `StopEntry`.
#[verifier::ext_equal]
pub ghost struct StopView {
    pub stop: Seq<char>,
    pub groups: Seq<GroupView>,
}

impl DeepView for StopEntry {
    type V = StopView;

    open spec fn deep_view(&self) -> StopView {
        StopView { stop: self.stop@, groups: self.groups.deep_view() }
    }
}

/// The client-facing shape: one entry per stop, each holding that stop's
/// route groups. Stops appear in first-seen order and no stop identifier
/// repeats.
pub type FrontendResponse = Vec<StopEntry>;

/// The upstream feed's decoded body: either a list of predictions, or a
/// list of feed-level error messages, or neither (an empty feed).
#[derive(Debug, Clone, PartialEq, Eq)]
pub struct FeedBody {
    pub predictions: Option<Vec<RawPrediction>>,
    pub api_error: Option<Vec<String>>,
}

/// The mathematical value of a `FeedBody`.
#[verifier::ext_equal]
pub ghost struct FeedBodyView {
    pub predictions: Option<Seq<PredictionView>>,
    pub api_error: Option<Seq<Seq<char>>>,
}

impl DeepView for FeedBody {
    type V = FeedBodyView;

    open spec fn deep_view(&self) -> FeedBodyView {
        FeedBodyView {
            predictions: self.predictions.deep_view(),
            api_error: self.api_error.deep_view(),
        }
    }
}

/// Arrivals are ordered ascending by their seconds-until-arrival.
pub open spec fn arrivals_sorted(arrivals: Seq<ArrivalView>) -> bool {
    forall|i: int, j: int|
        0 <= i < j < arrivals.len() ==> arrivals[i].seconds <= arrivals[j].seconds
}

/// No two groups in one stop's list share a route and destination pair,
/// and every group's arrivals are sorted.
pub open spec fn groups_well_formed(groups: Seq<GroupView>) -> bool {
    &&& forall|i: int, j: int|
        0 <= i < j < groups.len() ==> !(groups[i].route == groups[j].route
            && groups[i].destination == groups[j].destination)
    &&& forall|i: int| 0 <= i < groups.len() ==> arrivals_sorted(#[trigger] groups[i].arrivals)
}

/// No two entries share a stop identifier, and every entry's group list is
/// well formed. Together this says that every (stop, route, destination)
/// triple appears in at most one group of the whole response.
pub open spec fn response_well_formed(resp: Seq<StopView>) -> bool {
    &&& forall|i: int, j: int| 0 <= i < j < resp.len() ==> resp[i].stop != resp[j].stop
    &&& forall|i: int| 0 <= i < resp.len() ==> groups_well_formed(#[trigger] resp[i].groups)
}

/// In a well-formed response a (stop, route, destination) triple names at
/// most one group: two groups that agree on all three are the same group
/// of the same entry.
pub proof fn lemma_triple_names_one_group(
    resp: Seq<StopView>,
    i1: int,
    j1: int,
    i2: int,
    j2: int,
)
    requires
        response_well_formed(resp),
        0 <= i1 < resp.len(),
        0 <= j1 < resp[i1].groups.len(),
        0 <= i2 < resp.len(),
        0 <= j2 < resp[i2].groups.len(),
        resp[i1].stop == resp[i2].stop,
        resp[i1].groups[j1].route == resp[i2].groups[j2].route,
        resp[i1].groups[j1].destination == resp[i2].groups[j2].destination,
    ensures
        i1 == i2,
        j1 == j2,
{
    assert(i1 == i2);
    assert(groups_well_formed(resp[i1].groups));
}

} // verus!
