use vstd::prelude::*;
use crate::actions::Real;
use crate::text::{decimal, has_substring, str_contains, str_eq, to_decimal};

verus! {

#[derive(Debug, Clone, Copy, PartialEq, Eq, Structural)]
pub enum PwObjectType {
    Sink,
    Source,
    Stream,
    Unknown,
    /// Filter sentinel matching sinks or sources (audio endpoints), used only
    /// by object pickers, never assigned to a `PwObject`.
    SinkOrSource,
    /// Filter sentinel matching playback streams or sources, used only by
    /// object pickers, never assigned to a `PwObject`. Sources are included so
    /// routing can wire a hardware input into a sink (e.g. a virtual mic).
    StreamOrSource,
}

/// An audio node of the PipeWire graph.
#[derive(Debug)]
pub struct PwObject {
    pub id: u32,
    pub object_type: PwObjectType,
    pub name: String,
    pub description: String,
    /// The normalized volume when PipeWire reports it; `None` represents an
    /// unknown volume.
    pub volume: Option<Real>,
    pub muted: bool,
}

impl Clone for PwObject {
    fn clone(&self) -> (r: Self)
        ensures
            r == *self,
    {
        PwObject {
            id: self.id,
            object_type: self.object_type,
            name: self.name.clone(),
            description: self.description.clone(),
            volume: self.volume,
            muted: self.muted,
        }
    }
}

/// Index of the first object whose decimal id text is `target`, or
/// `objects.len()`.
pub open spec fn index_by_id_text(objects: Seq<PwObject>, target: Seq<char>) -> int
    decreases objects.len(),
{
    if objects.len() == 0 || decimal(objects[0].id as nat) == target {
        0
    } else {
        1 + index_by_id_text(objects.drop_first(), target)
    }
}

/// Index of the first object named exactly `target`, or `objects.len()`.
pub open spec fn index_by_name(objects: Seq<PwObject>, target: Seq<char>) -> int
    decreases objects.len(),
{
    if objects.len() == 0 || objects[0].name@ == target {
        0
    } else {
        1 + index_by_name(objects.drop_first(), target)
    }
}

/// Index of the first object whose name contains `target`, or `objects.len()`.
pub open spec fn index_by_name_part(objects: Seq<PwObject>, target: Seq<char>) -> int
    decreases objects.len(),
{
    if objects.len() == 0 || has_substring(objects[0].name@, target) {
        0
    } else {
        1 + index_by_name_part(objects.drop_first(), target)
    }
}

/// The object `find` selects: by numeric id, else by exact name, else by
/// name substring, in that order; none for an empty target.
pub open spec fn find_index(objects: Seq<PwObject>, target: Seq<char>) -> Option<int> {
    if target.len() == 0 {
        None
    } else if index_by_id_text(objects, target) < objects.len() {
        Some(index_by_id_text(objects, target))
    } else if index_by_name(objects, target) < objects.len() {
        Some(index_by_name(objects, target))
    } else if index_by_name_part(objects, target) < objects.len() {
        Some(index_by_name_part(objects, target))
    } else {
        None
    }
}

proof fn lemma_index_by_id_text(objects: Seq<PwObject>, target: Seq<char>, i: int)
    requires
        0 <= i <= objects.len(),
        i < objects.len() ==> decimal(objects[i].id as nat) == target,
        forall|j: int| 0 <= j < i ==> decimal(#[trigger] objects[j].id as nat) != target,
    ensures
        index_by_id_text(objects, target) == i,
    decreases objects.len(),
{
    if objects.len() > 0 && decimal(objects[0].id as nat) != target {
        assert forall|j: int| 0 <= j < i - 1 implies decimal(#[trigger] objects.drop_first()[j].id as nat)
            != target by {
            assert(objects.drop_first()[j] == objects[j + 1]);
        }
        lemma_index_by_id_text(objects.drop_first(), target, i - 1);
    }
}

proof fn lemma_index_by_name(objects: Seq<PwObject>, target: Seq<char>, i: int)
    requires
        0 <= i <= objects.len(),
        i < objects.len() ==> objects[i].name@ == target,
        forall|j: int| 0 <= j < i ==> #[trigger] objects[j].name@ != target,
    ensures
        index_by_name(objects, target) == i,
    decreases objects.len(),
{
    if objects.len() > 0 && objects[0].name@ != target {
        assert forall|j: int| 0 <= j < i - 1 implies #[trigger] objects.drop_first()[j].name@ != target by {
            assert(objects.drop_first()[j] == objects[j + 1]);
        }
        lemma_index_by_name(objects.drop_first(), target, i - 1);
    }
}

proof fn lemma_index_by_name_part(objects: Seq<PwObject>, target: Seq<char>, i: int)
    requires
        0 <= i <= objects.len(),
        i < objects.len() ==> has_substring(objects[i].name@, target),
        forall|j: int| 0 <= j < i ==> !has_substring(#[trigger] objects[j].name@, target),
    ensures
        index_by_name_part(objects, target) == i,
    decreases objects.len(),
{
    if objects.len() > 0 && !has_substring(objects[0].name@, target) {
        assert forall|j: int| 0 <= j < i - 1 implies !has_substring(
            #[trigger] objects.drop_first()[j].name@,
            target,
        ) by {
            assert(objects.drop_first()[j] == objects[j + 1]);
        }
        lemma_index_by_name_part(objects.drop_first(), target, i - 1);
    }
}

impl PwObject {
    /// Finds an object by numeric ID, exact name, or name substring, in that order.
    pub fn find<'a>(objects: &'a [Self], target: &str) -> (r: Option<&'a Self>)
        ensures
            match find_index(objects@, target@) {
                Some(i) => r == Some(&objects@[i]),
                None => r is None,
            },
    {
        let n = objects.len();
        if target.unicode_len() == 0 {
            return None;
        }
        let mut i: usize = 0;
        while i < n && !str_eq(to_decimal(objects[i].id as u64).as_str(), target)
            invariant
                n == objects@.len(),
                i <= n,
                forall|j: int| 0 <= j < i ==> decimal(#[trigger] objects@[j].id as nat) != target@,
            decreases n - i,
        {
            i = i + 1;
        }
        proof {
            lemma_index_by_id_text(objects@, target@, i as int);
        }
        if i < n {
            return Some(&objects[i]);
        }
        let mut i: usize = 0;
        while i < n && !str_eq(objects[i].name.as_str(), target)
            invariant
                n == objects@.len(),
                i <= n,
                forall|j: int| 0 <= j < i ==> #[trigger] objects@[j].name@ != target@,
            decreases n - i,
        {
            i = i + 1;
        }
        proof {
            lemma_index_by_name(objects@, target@, i as int);
        }
        if i < n {
            return Some(&objects[i]);
        }
        let mut i: usize = 0;
        while i < n && !str_contains(objects[i].name.as_str(), target)
            invariant
                n == objects@.len(),
                i <= n,
                forall|j: int| 0 <= j < i ==> !has_substring(#[trigger] objects@[j].name@, target@),
            decreases n - i,
        {
            i = i + 1;
        }
        proof {
            lemma_index_by_name_part(objects@, target@, i as int);
        }
        if i < n {
            Some(&objects[i])
        } else {
            None
        }
    }
}

/// The PipeWire node id that `target` resolves to, as `PwObject::find` selects it.
pub fn resolve_node_id(objects: &[PwObject], target: &str) -> (r: Option<u32>)
    ensures
        match find_index(objects@, target@) {
            Some(i) => r == Some(objects@[i].id),
            None => r is None,
        },
{
    match PwObject::find(objects, target) {
        Some(o) => Some(o.id),
        None => None,
    }
}

/// The object type a node's `media.class` property maps to, if it is an
/// audio sink, audio source or audio stream.
pub open spec fn spec_object_type_for(media_class: Seq<char>) -> Option<PwObjectType> {
    if has_substring(media_class, seq!['A', 'u', 'd', 'i', 'o', '/', 'S', 'i', 'n', 'k']) {
        Some(PwObjectType::Sink)
    } else if has_substring(
        media_class,
        seq!['A', 'u', 'd', 'i', 'o', '/', 'S', 'o', 'u', 'r', 'c', 'e'],
    ) {
        Some(PwObjectType::Source)
    } else if has_substring(media_class, seq!['S', 't', 'r', 'e', 'a', 'm']) && has_substring(
        media_class,
        seq!['A', 'u', 'd', 'i', 'o'],
    ) {
        Some(PwObjectType::Stream)
    } else {
        None
    }
}

pub fn object_type_for(media_class: &str) -> (r: Option<PwObjectType>)
    ensures
        r == spec_object_type_for(media_class@),
{
    proof {
        reveal_strlit("Audio/Sink");
        reveal_strlit("Audio/Source");
        reveal_strlit("Stream");
        reveal_strlit("Audio");
        assert("Audio/Sink"@ =~= seq!['A', 'u', 'd', 'i', 'o', '/', 'S', 'i', 'n', 'k']);
        assert("Audio/Source"@ =~= seq!['A', 'u', 'd', 'i', 'o', '/', 'S', 'o', 'u', 'r', 'c', 'e']);
        assert("Stream"@ =~= seq!['S', 't', 'r', 'e', 'a', 'm']);
        assert("Audio"@ =~= seq!['A', 'u', 'd', 'i', 'o']);
    }
    if str_contains(media_class, "Audio/Sink") {
        Some(PwObjectType::Sink)
    } else if str_contains(media_class, "Audio/Source") {
        Some(PwObjectType::Source)
    } else if str_contains(media_class, "Stream") && str_contains(media_class, "Audio") {
        Some(PwObjectType::Stream)
    } else {
        None
    }
}

/// Whether the node named `node` is the one `target` names: the same name,
/// or a name that contains `target`.
pub fn node_matches(node: &str, target: &str) -> (r: bool)
    ensures
        r == (node@ == target@ || has_substring(node@, target@)),
{
    str_eq(node, target) || str_contains(node, target)
}

/// The node name `target` resolves to: the name of the object `find`
/// selects, or `target` itself when none is found.
pub open spec fn spec_resolve_node_name(objects: Seq<PwObject>, target: Seq<char>) -> Seq<char> {
    match find_index(objects, target) {
        Some(i) => objects[i].name@,
        None => target,
    }
}

pub fn resolve_node_name(objects: &[PwObject], target: &str) -> (r: String)
    ensures
        r@ == spec_resolve_node_name(objects@, target@),
{
    match PwObject::find(objects, target) {
        Some(obj) => obj.name.clone(),
        None => target.to_owned(),
    }
}

/// Whether an edge links `stream_name` to `sink_name`, each end matched as
/// `node_matches` does.
pub open spec fn edge_links(edge: (String, String), stream_name: Seq<char>, sink_name: Seq<char>) -> bool {
    (edge.0@ == stream_name || has_substring(edge.0@, stream_name)) && (edge.1@ == sink_name
        || has_substring(edge.1@, sink_name))
}

/// Whether the graph `edges` hold a link from the stream `stream` into the
/// sink `sink`, both resolved to node names first.
pub fn route_is_active_with_edges(
    edges: &[(String, String)],
    pw_objects: &[PwObject],
    stream: &str,
    sink: &str,
) -> (r: bool)
    ensures
        r == exists|k: int|
            0 <= k < edges@.len() && #[trigger] edge_links(
                edges@[k],
                spec_resolve_node_name(pw_objects@, stream@),
                spec_resolve_node_name(pw_objects@, sink@),
            ),
{
    let stream_name = resolve_node_name(pw_objects, stream);
    let sink_name = resolve_node_name(pw_objects, sink);
    let mut k: usize = 0;
    while k < edges.len()
        invariant
            k <= edges@.len(),
            stream_name@ == spec_resolve_node_name(pw_objects@, stream@),
            sink_name@ == spec_resolve_node_name(pw_objects@, sink@),
            forall|j: int| 0 <= j < k ==> !#[trigger] edge_links(edges@[j], stream_name@, sink_name@),
        decreases edges@.len() - k,
    {
        let (from, to) = &edges[k];
        if node_matches(from.as_str(), stream_name.as_str()) && node_matches(to.as_str(), sink_name.as_str()) {
            assert(edge_links(edges@[k as int], stream_name@, sink_name@));
            return true;
        }
        k = k + 1;
    }
    false
}

/// A command for the PipeWire thread.
#[derive(Debug)]
pub enum PwCommand {
    Shutdown,
    Volume {
        /// Node name or numeric id string.
        target: String,
        /// Normalized volume (0.0..1.0 and above).
        volume: Real,
    },
    Mute { target: String, muted: bool },
    Route {
        /// Stream node name or id.
        stream: String,
        /// Sink node name or id.
        sink: String,
        /// `true` to link, `false` to unlink.
        connect: bool,
    },
}

/// An event from the PipeWire thread.
#[derive(Debug)]
pub enum PwEvent {
    /// Snapshot of the current audio graph: objects plus resolved routing
    /// edges `(output_node_name, input_node_name)`.
    ObjectsUpdated { objects: Vec<PwObject>, edges: Vec<(String, String)> },
    Connected,
    Disconnected,
}

/// The name of the first object with id `id`, if any.
pub open spec fn spec_node_name(objects: Seq<PwObject>, id: u32) -> Option<Seq<char>>
    decreases objects.len(),
{
    if objects.len() == 0 {
        None
    } else if objects[0].id == id {
        Some(objects[0].name@)
    } else {
        spec_node_name(objects.drop_first(), id)
    }
}

/// The name of the first object with id `id`, if any.
pub fn node_name(objects: &[PwObject], id: u32) -> (r: Option<String>)
    ensures
        match spec_node_name(objects@, id) {
            Some(n) => r matches Some(s) && s@ == n,
            None => r is None,
        },
{
    let mut i: usize = 0;
    assert(objects@.subrange(0, objects@.len() as int) =~= objects@);
    while i < objects.len()
        invariant
            i <= objects@.len(),
            spec_node_name(objects@, id) == spec_node_name(objects@.subrange(i as int, objects@.len() as int), id),
        decreases objects@.len() - i,
    {
        let ghost rest = objects@.subrange(i as int, objects@.len() as int);
        proof {
            assert(rest.drop_first() =~= objects@.subrange(i + 1, objects@.len() as int));
        }
        if objects[i].id == id {
            return Some(objects[i].name.clone());
        }
        i = i + 1;
    }
    None
}

/// Routing edges `(output node name, input node name)` of the links
/// `(output node id, input node id)`, skipping links with an unknown end.
pub open spec fn spec_edges(objects: Seq<PwObject>, links: Seq<(u32, u32)>) -> Seq<(Seq<char>, Seq<char>)>
    decreases links.len(),
{
    if links.len() == 0 {
        Seq::empty()
    } else {
        let rest = spec_edges(objects, links.drop_last());
        let (out_id, in_id) = links.last();
        match (spec_node_name(objects, out_id), spec_node_name(objects, in_id)) {
            (Some(o), Some(i)) => rest.push((o, i)),
            _ => rest,
        }
    }
}

/// Resolves link endpoints to node names.
pub fn compute_edges(objects: &[PwObject], links: &[(u32, u32)]) -> (r: Vec<(String, String)>)
    ensures
        r@.map_values(|e: (String, String)| (e.0@, e.1@)) == spec_edges(objects@, links@),
{
    let mut r: Vec<(String, String)> = Vec::new();
    let mut k: usize = 0;
    while k < links.len()
        invariant
            k <= links@.len(),
            r@.map_values(|e: (String, String)| (e.0@, e.1@)) == spec_edges(objects@, links@.take(k as int)),
        decreases links@.len() - k,
    {
        proof {
            assert(links@.take(k + 1).drop_last() =~= links@.take(k as int));
        }
        let (out_id, in_id) = links[k];
        let out = node_name(objects, out_id);
        let inn = node_name(objects, in_id);
        match (out, inn) {
            (Some(o), Some(i)) => {
                r.push((o, i));
                proof {
                    assert(r@.map_values(|e: (String, String)| (e.0@, e.1@)) =~= spec_edges(
                        objects@,
                        links@.take(k as int),
                    ).push((o@, i@)));
                }
            },
            _ => {},
        }
        k = k + 1;
    }
    proof {
        assert(links@.take(k as int) =~= links@);
    }
    r
}

/// Static geometry of a device route, used to address it when mirroring a node
/// volume/mute change onto the hardware endpoint.
#[derive(Debug)]
pub struct RouteInfo {
    pub index: u32,
    pub direction: u32,
    pub device: u32,
    pub devices: Vec<u32>,
}

impl Clone for RouteInfo {
    fn clone(&self) -> (r: Self)
        ensures
            r.index == self.index,
            r.direction == self.direction,
            r.device == self.device,
            r.devices@ == self.devices@,
    {
        RouteInfo {
            index: self.index,
            direction: self.direction,
            device: self.device,
            devices: self.devices.clone(),
        }
    }
}

/// Whether `route` covers the ACP profile device `profile_device`.
pub open spec fn route_covers(route: RouteInfo, profile_device: u32) -> bool {
    route.device == profile_device || route.devices@.contains(profile_device)
}

/// Whether `v` holds `x`.
fn contains_u32(v: &Vec<u32>, x: u32) -> (r: bool)
    ensures
        r == v@.contains(x),
{
    let mut i: usize = 0;
    while i < v.len()
        invariant
            i <= v@.len(),
            forall|j: int| 0 <= j < i ==> v@[j] != x,
        decreases v@.len() - i,
    {
        if v[i] == x {
            assert(v@[i as int] == x);
            return true;
        }
        i = i + 1;
    }
    false
}

/// The first route in `routes` covering `profile_device`.
pub fn covering_route(routes: &[RouteInfo], profile_device: u32) -> (r: Option<usize>)
    ensures
        match r {
            Some(i) => i < routes@.len() && route_covers(routes@[i as int], profile_device) && forall|j: int|
                0 <= j < i ==> !route_covers(#[trigger] routes@[j], profile_device),
            None => forall|j: int| 0 <= j < routes@.len() ==> !route_covers(#[trigger] routes@[j], profile_device),
        },
{
    let mut i: usize = 0;
    while i < routes.len()
        invariant
            i <= routes@.len(),
            forall|j: int| 0 <= j < i ==> !route_covers(#[trigger] routes@[j], profile_device),
        decreases routes@.len() - i,
    {
        if routes[i].device == profile_device || contains_u32(&routes[i].devices, profile_device) {
            return Some(i);
        }
        i = i + 1;
    }
    None
}

/// The non-negative values of `v`, in order, as unsigned numbers.
pub open spec fn non_negative(v: Seq<i32>) -> Seq<u32> {
    v.filter(|x: i32| x >= 0).map_values(|x: i32| x as u32)
}

/// The value of an integer field that must not be negative.
pub open spec fn unsigned_field(v: Option<i32>) -> Option<u32> {
    match v {
        Some(x) => if x >= 0 {
            Some(x as u32)
        } else {
            None
        },
        None => None,
    }
}

/// The route a `Route` param describes, from its integer fields (each `None`
/// when absent): none without a non-negative index; the device is the one
/// given when non-negative, else the first non-negative one of `devices`, and
/// there is no route when neither exists.
pub fn route_from_fields(index: Option<i32>, direction: u32, device: Option<i32>, devices: &[i32]) -> (r: Option<RouteInfo>)
    ensures
        ({
            let all = non_negative(devices@);
            let dev = match unsigned_field(device) {
                Some(d) => Some(d),
                None => if all.len() > 0 {
                    Some(all[0])
                } else {
                    None
                },
            };
            match r {
                Some(route) => {
                    &&& unsigned_field(index) == Some(route.index)
                    &&& dev == Some(route.device)
                    &&& route.direction == direction
                    &&& route.devices@ == all
                },
                None => unsigned_field(index) is None || dev is None,
            }
        }),
{
    let mut all: Vec<u32> = Vec::new();
    let mut i: usize = 0;
    while i < devices.len()
        invariant
            i <= devices@.len(),
            all@ == non_negative(devices@.take(i as int)),
        decreases devices@.len() - i,
    {
        let x = devices[i];
        proof {
            assert(devices@.take(i + 1) =~= devices@.take(i as int).push(x));
            devices@.take(i as int).lemma_filter_push(x, |x: i32| x >= 0);
        }
        if x >= 0 {
            all.push(x as u32);
        }
        i = i + 1;
        proof {
            assert(all@ =~= non_negative(devices@.take(i as int)));
        }
    }
    proof {
        assert(devices@.take(devices@.len() as int) =~= devices@);
    }
    let dev = match device {
        Some(d) if d >= 0 => Some(d as u32),
        _ => if all.len() > 0 {
            Some(all[0])
        } else {
            None
        },
    };
    let index = match index {
        Some(x) if x >= 0 => x as u32,
        _ => return None,
    };
    match dev {
        Some(d) => Some(RouteInfo { index, direction, device: d, devices: all }),
        None => None,
    }
}

/// Replaces the route with the same index as `route`, or appends it.
pub fn upsert_route(routes: &mut Vec<RouteInfo>, route: RouteInfo)
    ensures
        match (exists|j: int| 0 <= j < old(routes)@.len() && #[trigger] old(routes)@[j].index == route.index) {
            true => {
                let j = choose|j: int| 0 <= j < old(routes)@.len() && #[trigger] old(routes)@[j].index == route.index && forall|k: int| 0 <= k < j ==> #[trigger] old(routes)@[k].index != route.index;
                final(routes)@ == old(routes)@.update(j, route)
            },
            false => final(routes)@ == old(routes)@.push(route),
        },
{
    let mut i: usize = 0;
    while i < routes.len()
        invariant
            i <= routes@.len(),
            routes@ == old(routes)@,
            forall|k: int| 0 <= k < i ==> #[trigger] routes@[k].index != route.index,
        decreases routes@.len() - i,
    {
        if routes[i].index == route.index {
            proof {
                let j = choose|j: int| 0 <= j < old(routes)@.len() && #[trigger] old(routes)@[j].index == route.index && forall|k: int| 0 <= k < j ==> #[trigger] old(routes)@[k].index != route.index;
                if j < i {
                } else if j > i {
                    assert(old(routes)@[i as int].index == route.index);
                }
            }
            routes.set(i, route);
            return;
        }
        i = i + 1;
    }
    routes.push(route);
}

/// Direction of a node port.
#[derive(Debug, Clone, Copy, PartialEq, Eq, Structural)]
pub enum PortDirection {
    Input,
    Output,
}

/// A port of the audio graph: its id, owning node, direction and audio channel.
#[derive(Debug)]
pub struct PortEntry {
    pub id: u32,
    pub node: u32,
    pub direction: PortDirection,
    pub channel: String,
}

/// The input ports of `sink`, in order.
pub open spec fn sink_inputs(ports: Seq<PortEntry>, sink: u32) -> Seq<PortEntry>
    decreases ports.len(),
{
    if ports.len() == 0 {
        Seq::empty()
    } else {
        let rest = sink_inputs(ports.drop_last(), sink);
        if ports.last().node == sink && ports.last().direction == PortDirection::Input {
            rest.push(ports.last())
        } else {
            rest
        }
    }
}

/// The input port an output port on `channel` links to: the first one on the
/// same channel, else the first one at all.
pub open spec fn pick_input(inputs: Seq<PortEntry>, channel: Seq<char>) -> Option<u32> {
    if exists|j: int| 0 <= j < inputs.len() && #[trigger] inputs[j].channel@ == channel {
        let j = choose|j: int|
            0 <= j < inputs.len() && #[trigger] inputs[j].channel@ == channel && forall|k: int|
                0 <= k < j ==> #[trigger] inputs[k].channel@ != channel;
        Some(inputs[j].id)
    } else if inputs.len() > 0 {
        Some(inputs[0].id)
    } else {
        None
    }
}

/// The port links `(output port, input port)` that connect `stream` to
/// `sink`: one per output port of the stream that finds an input port.
pub open spec fn link_plan(ports: Seq<PortEntry>, inputs: Seq<PortEntry>, stream: u32) -> Seq<(u32, u32)>
    decreases ports.len(),
{
    if ports.len() == 0 {
        Seq::empty()
    } else {
        let rest = link_plan(ports.drop_last(), inputs, stream);
        let p = ports.last();
        if p.node == stream && p.direction == PortDirection::Output {
            match pick_input(inputs, p.channel@) {
                Some(i) => rest.push((p.id, i)),
                None => rest,
            }
        } else {
            rest
        }
    }
}

/// The input ports of `sink`, in order.
fn collect_sink_inputs(ports: &[PortEntry], sink: u32) -> (r: Vec<(u32, String)>)
    ensures
        r@.len() == sink_inputs(ports@, sink).len(),
        forall|j: int|
            #![trigger r@[j]]
            0 <= j < r@.len() ==> r@[j].0 == sink_inputs(ports@, sink)[j].id && r@[j].1@
                == sink_inputs(ports@, sink)[j].channel@,
{
    let mut r: Vec<(u32, String)> = Vec::new();
    let mut i: usize = 0;
    while i < ports.len()
        invariant
            i <= ports@.len(),
            r@.len() == sink_inputs(ports@.take(i as int), sink).len(),
            forall|j: int|
                #![trigger r@[j]]
                0 <= j < r@.len() ==> r@[j].0 == sink_inputs(ports@.take(i as int), sink)[j].id
                    && r@[j].1@ == sink_inputs(ports@.take(i as int), sink)[j].channel@,
        decreases ports@.len() - i,
    {
        proof {
            assert(ports@.take(i + 1).drop_last() =~= ports@.take(i as int));
            assert(ports@.take(i + 1).last() == ports@[i as int]);
        }
        if ports[i].node == sink && ports[i].direction == PortDirection::Input {
            r.push((ports[i].id, ports[i].channel.clone()));
        }
        i = i + 1;
    }
    proof {
        assert(ports@.take(i as int) =~= ports@);
    }
    r
}

/// The port links that connect the stream node `stream` to the sink node `sink`.
pub fn plan_links(ports: &[PortEntry], stream: u32, sink: u32) -> (r: Vec<(u32, u32)>)
    ensures
        r@ == link_plan(ports@, sink_inputs(ports@, sink), stream),
{
    let inputs = collect_sink_inputs(ports, sink);
    let ghost ins = sink_inputs(ports@, sink);
    let mut r: Vec<(u32, u32)> = Vec::new();
    let mut i: usize = 0;
    while i < ports.len()
        invariant
            i <= ports@.len(),
            ins == sink_inputs(ports@, sink),
            inputs@.len() == ins.len(),
            forall|j: int|
                #![trigger inputs@[j]]
                0 <= j < inputs@.len() ==> inputs@[j].0 == ins[j].id && inputs@[j].1@ == ins[j].channel@,
            r@ == link_plan(ports@.take(i as int), ins, stream),
        decreases ports@.len() - i,
    {
        proof {
            assert(ports@.take(i + 1).drop_last() =~= ports@.take(i as int));
            assert(ports@.take(i + 1).last() == ports@[i as int]);
        }
        if ports[i].node == stream && ports[i].direction == PortDirection::Output {
            let ch = ports[i].channel.as_str();
            let mut k: usize = 0;
            while k < inputs.len() && !str_eq(inputs[k].1.as_str(), ch)
                invariant
                    k <= inputs@.len(),
                    inputs@.len() == ins.len(),
                    forall|j: int|
                        #![trigger inputs@[j]]
                        0 <= j < inputs@.len() ==> inputs@[j].0 == ins[j].id && inputs@[j].1@
                            == ins[j].channel@,
                    forall|j: int| 0 <= j < k ==> #[trigger] ins[j].channel@ != ch@,
                decreases inputs@.len() - k,
            {
                k = k + 1;
            }
            proof {
                if k < inputs@.len() {
                    let j = choose|j: int|
                        0 <= j < ins.len() && #[trigger] ins[j].channel@ == ch@ && forall|m: int|
                            0 <= m < j ==> #[trigger] ins[m].channel@ != ch@;
                    if j < k {
                    } else if j > k {
                        assert(ins[k as int].channel@ == ch@);
                    }
                }
            }
            if k < inputs.len() {
                r.push((ports[i].id, inputs[k].0));
            } else if inputs.len() > 0 {
                r.push((ports[i].id, inputs[0].0));
            }
        }
        i = i + 1;
    }
    proof {
        assert(ports@.take(i as int) =~= ports@);
    }
    r
}

/// The ids of the links that run from node `stream` to node `sink`, among
/// links given as `(link id, (output node id, input node id))`.
pub fn links_between(links: &[(u32, (u32, u32))], stream: u32, sink: u32) -> (r: Vec<u32>)
    ensures
        r@ == links@.filter(|l: (u32, (u32, u32))| l.1.0 == stream && l.1.1 == sink).map_values(
            |l: (u32, (u32, u32))| l.0,
        ),
{
    let mut r: Vec<u32> = Vec::new();
    let mut i: usize = 0;
    while i < links.len()
        invariant
            i <= links@.len(),
            r@ == links@.take(i as int).filter(|l: (u32, (u32, u32))| l.1.0 == stream && l.1.1 == sink).map_values(
                |l: (u32, (u32, u32))| l.0,
            ),
        decreases links@.len() - i,
    {
        proof {
            reveal(Seq::filter);
            assert(links@.take(i + 1).drop_last() =~= links@.take(i as int));
        }
        let (id, (out_id, in_id)) = links[i];
        if out_id == stream && in_id == sink {
            r.push(id);
        }
        i = i + 1;
        proof {
            assert(r@ =~= links@.take(i as int).filter(|l: (u32, (u32, u32))| l.1.0 == stream && l.1.1 == sink).map_values(
                |l: (u32, (u32, u32))| l.0,
            ));
        }
    }
    proof {
        assert(links@.take(i as int) =~= links@);
    }
    r
}

/// The value stored under the first entry with key `key`, if any.
pub open spec fn lookup_key<V>(entries: Seq<(u32, V)>, key: u32) -> Option<V>
    decreases entries.len(),
{
    if entries.len() == 0 {
        None
    } else if entries[0].0 == key {
        Some(entries[0].1)
    } else {
        lookup_key(entries.drop_first(), key)
    }
}

/// Position of the first entry with key `key`.
fn find_key<V>(entries: &[(u32, V)], key: u32) -> (r: Option<usize>)
    ensures
        match r {
            Some(i) => i < entries@.len() && lookup_key(entries@, key) == Some(entries@[i as int].1),
            None => lookup_key(entries@, key) is None,
        },
{
    let mut i: usize = 0;
    assert(entries@.subrange(0, entries@.len() as int) =~= entries@);
    while i < entries.len()
        invariant
            i <= entries@.len(),
            lookup_key(entries@, key) == lookup_key(entries@.subrange(i as int, entries@.len() as int), key),
        decreases entries@.len() - i,
    {
        proof {
            assert(entries@.subrange(i as int, entries@.len() as int).drop_first() =~= entries@.subrange(
                i + 1,
                entries@.len() as int,
            ));
        }
        if entries[i].0 == key {
            return Some(i);
        }
        i = i + 1;
    }
    None
}

/// The device route backing node `node_id`: the device recorded for the
/// node, and the first of that device's routes covering the node's ACP
/// profile device. `node_routes` maps node id to (device id, profile device);
/// `routes` maps device id to its routes.
pub open spec fn spec_node_route(
    node_routes: Seq<(u32, (u32, u32))>,
    routes: Seq<(u32, Vec<RouteInfo>)>,
    node_id: u32,
) -> Option<(u32, RouteInfo)> {
    match lookup_key(node_routes, node_id) {
        None => None,
        Some((device_id, profile_device)) => match lookup_key(routes, device_id) {
            None => None,
            Some(list) => if exists|j: int| 0 <= j < list@.len() && route_covers(#[trigger] list@[j], profile_device) {
                let j = choose|j: int|
                    0 <= j < list@.len() && route_covers(#[trigger] list@[j], profile_device) && forall|k: int|
                        0 <= k < j ==> !route_covers(#[trigger] list@[k], profile_device);
                Some((device_id, list@[j]))
            } else {
                None
            },
        },
    }
}

/// The device id and route a volume or mute write to node `node_id` is
/// mirrored onto, if the node is backed by a device route.
pub fn node_route_info(
    node_routes: &[(u32, (u32, u32))],
    routes: &[(u32, Vec<RouteInfo>)],
    node_id: u32,
) -> (r: Option<(u32, RouteInfo)>)
    ensures
        match spec_node_route(node_routes@, routes@, node_id) {
            Some((d, route)) => r matches Some((d2, route2)) && d2 == d && route2.index == route.index
                && route2.direction == route.direction && route2.device == route.device && route2.devices@
                == route.devices@,
            None => r is None,
        },
{
    let ni = match find_key(node_routes, node_id) {
        Some(i) => i,
        None => return None,
    };
    let (device_id, profile_device) = node_routes[ni].1;
    let di = match find_key(routes, device_id) {
        Some(i) => i,
        None => return None,
    };
    let list = &routes[di].1;
    match covering_route(list.as_slice(), profile_device) {
        Some(k) => {
            proof {
                let j = choose|j: int|
                    0 <= j < list@.len() && route_covers(#[trigger] list@[j], profile_device) && forall|m: int|
                        0 <= m < j ==> !route_covers(#[trigger] list@[m], profile_device);
                if j < k {
                } else if j > k {
                    assert(route_covers(list@[k as int], profile_device));
                }
            }
            Some((device_id, list[k].clone()))
        },
        None => None,
    }
}

/// Records a node announced by the registry: updates the type, name and
/// description of the first object with its id, or appends a new object with
/// an unknown volume, unmuted.
pub fn upsert_object(
    objects: &mut Vec<PwObject>,
    id: u32,
    object_type: PwObjectType,
    name: String,
    description: String,
)
    ensures
        ({
            let i = index_by_id(old(objects)@, id);
            if i < old(objects)@.len() {
                final(objects)@ == old(objects)@.update(
                    i,
                    PwObject { object_type, name, description, ..old(objects)@[i] },
                )
            } else {
                final(objects)@.len() == old(objects)@.len() + 1 && final(objects)@.take(
                    old(objects)@.len() as int,
                ) == old(objects)@ && final(objects)@.last() == PwObject {
                    id,
                    object_type,
                    name,
                    description,
                    volume: None,
                    muted: false,
                }
            }
        }),
{
    let i = find_object(objects, id);
    if i < objects.len() {
        let old_obj = &objects[i];
        let updated = PwObject {
            id: old_obj.id,
            object_type,
            name,
            description,
            volume: old_obj.volume,
            muted: old_obj.muted,
        };
        objects.set(i, updated);
    } else {
        objects.push(PwObject { id, object_type, name, description, volume: None, muted: false });
        proof {
            assert(objects@.take(old(objects)@.len() as int) =~= old(objects)@);
        }
    }
}

/// Index of the first object with id `id`, or `objects.len()`.
pub open spec fn index_by_id(objects: Seq<PwObject>, id: u32) -> int
    decreases objects.len(),
{
    if objects.len() == 0 || objects[0].id == id {
        0
    } else {
        1 + index_by_id(objects.drop_first(), id)
    }
}

proof fn lemma_index_by_id(objects: Seq<PwObject>, id: u32, i: int)
    requires
        0 <= i <= objects.len(),
        i < objects.len() ==> objects[i].id == id,
        forall|j: int| 0 <= j < i ==> #[trigger] objects[j].id != id,
    ensures
        index_by_id(objects, id) == i,
    decreases objects.len(),
{
    if objects.len() > 0 && objects[0].id != id {
        assert forall|j: int| 0 <= j < i - 1 implies #[trigger] objects.drop_first()[j].id != id by {
            assert(objects.drop_first()[j] == objects[j + 1]);
        }
        lemma_index_by_id(objects.drop_first(), id, i - 1);
    }
}

/// Position of the first object with id `id`.
fn find_object(objects: &Vec<PwObject>, id: u32) -> (i: usize)
    ensures
        i == index_by_id(objects@, id),
        i <= objects@.len(),
{
    let mut i: usize = 0;
    while i < objects.len() && objects[i].id != id
        invariant
            i <= objects@.len(),
            forall|j: int| 0 <= j < i ==> #[trigger] objects@[j].id != id,
        decreases objects@.len() - i,
    {
        i = i + 1;
    }
    proof {
        lemma_index_by_id(objects@, id, i as int);
    }
    i
}

/// Applies a parsed `Props` update to the first object with id `id`: a
/// reported volume or mute state replaces the stored one, an absent one
/// leaves it unchanged.
pub fn apply_prop_update(objects: &mut Vec<PwObject>, id: u32, volume: Option<Real>, muted: Option<bool>)
    ensures
        ({
            let i = index_by_id(old(objects)@, id);
            if i < old(objects)@.len() {
                let o = old(objects)@[i];
                final(objects)@ == old(objects)@.update(
                    i,
                    PwObject {
                        volume: match volume {
                            Some(v) => Some(v),
                            None => o.volume,
                        },
                        muted: match muted {
                            Some(m) => m,
                            None => o.muted,
                        },
                        ..o
                    },
                )
            } else {
                final(objects)@ == old(objects)@
            }
        }),
{
    let i = find_object(objects, id);
    if i < objects.len() {
        let o = &objects[i];
        let updated = PwObject {
            id: o.id,
            object_type: o.object_type,
            name: o.name.clone(),
            description: o.description.clone(),
            volume: match volume {
                Some(v) => Some(v),
                None => o.volume,
            },
            muted: match muted {
                Some(m) => m,
                None => o.muted,
            },
        };
        objects.set(i, updated);
    }
}

/// The first non-empty value among `values`, in order.
pub fn first_non_empty(values: &[Option<String>]) -> (r: Option<String>)
    ensures
        match r {
            Some(s) => exists|j: int|
                0 <= j < values@.len() && #[trigger] values@[j] == Some(s) && s@.len() > 0 && forall|k: int|
                    0 <= k < j ==> !(#[trigger] values@[k] matches Some(t) && t@.len() > 0),
            None => forall|k: int| 0 <= k < values@.len() ==> !(#[trigger] values@[k] matches Some(t) && t@.len() > 0),
        },
{
    let mut i: usize = 0;
    while i < values.len()
        invariant
            i <= values@.len(),
            forall|k: int| 0 <= k < i ==> !(#[trigger] values@[k] matches Some(t) && t@.len() > 0),
        decreases values@.len() - i,
    {
        match &values[i] {
            Some(v) => {
                if v.as_str().unicode_len() > 0 {
                    let r = v.clone();
                    assert(values@[i as int] == Some(r));
                    return Some(r);
                }
            },
            None => {},
        }
        i = i + 1;
    }
    None
}

/// The description shown for a node: streams are labelled
/// `app_name (node_name)` when an application name is known, other nodes use
/// their `node.description`, falling back to the node name.
pub fn node_label(
    object_type: PwObjectType,
    name: &str,
    app: Option<&str>,
    node_description: Option<&str>,
) -> (r: String)
    ensures
        object_type == PwObjectType::Stream ==> match app {
            Some(a) => r@ == a@ + seq![' ', '('] + name@ + seq![')'],
            None => r@ == name@,
        },
        object_type != PwObjectType::Stream ==> match node_description {
            Some(d) => r@ == d@,
            None => r@ == name@,
        },
{
    if object_type == PwObjectType::Stream {
        match app {
            Some(a) => {
                let mut r = a.to_owned();
                proof {
                    reveal_strlit(" (");
                    reveal_strlit(")");
                }
                r.append(" (");
                r.append(name);
                r.append(")");
                r
            },
            None => name.to_owned(),
        }
    } else {
        match node_description {
            Some(d) => d.to_owned(),
            None => name.to_owned(),
        }
    }
}

} // verus!
