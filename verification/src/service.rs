//! Services and the order in which they start and stop.

use crate::error::{CoreError, CoreResult, ErrorView};
use crate::text;
use crate::text::{chars_of, comes_before};
use vstd::prelude::*;

verus! {

/// A service and the services that have to be ready before it.
#[derive(Debug, PartialEq, Eq)]
pub struct ServiceSpec {
    pub id: String,
    pub dependencies: Vec<String>,
}

/// A service with its identifiers as sequences of characters.
#[verifier::ext_equal]
pub struct ServiceView {
    pub id: Seq<char>,
    pub dependencies: Seq<Seq<char>>,
}

impl View for ServiceSpec {
    type V = ServiceView;

    open spec fn view(&self) -> ServiceView {
        ServiceView {
            id: self.id@,
            dependencies: self.dependencies@.map_values(|dependency: String| dependency@),
        }
    }
}

impl Clone for ServiceSpec {
    fn clone(&self) -> (copy: ServiceSpec)
        ensures
            copy@ == self@,
    {
        let copy = ServiceSpec { id: self.id.clone(), dependencies: self.dependencies.clone() };
        assert(copy@.dependencies =~= self@.dependencies);
        copy
    }
}

impl ServiceSpec {
    /// A service and the identifiers of its dependencies.
    pub fn new<const N: usize>(id: &str, dependencies: [&str; N]) -> (service: ServiceSpec)
        ensures
            service@.id == id@,
            service@.dependencies == dependencies@.map_values(|dependency: &str| dependency@),
    {
        let ghost names = dependencies@.map_values(|dependency: &str| dependency@);
        let mut owned: Vec<String> = Vec::new();
        for i in 0..N
            invariant
                names == dependencies@.map_values(|dependency: &str| dependency@),
                owned@.map_values(|dependency: String| dependency@) == names.take(i as int),
        {
            let ghost before = owned@.map_values(|dependency: String| dependency@);
            owned.push(dependencies[i].to_owned());
            assert(owned@.map_values(|dependency: String| dependency@) =~= before.push(
                names[i as int],
            ));
            assert(names.take(i + 1) =~= names.take(i as int).push(names[i as int]));
        }
        assert(names.take(N as int) =~= names);
        ServiceSpec { id: id.to_owned(), dependencies: owned }
    }
}

/// The services of a list.
pub open spec fn service_views(services: Seq<ServiceSpec>) -> Seq<ServiceView> {
    services.map_values(|service: ServiceSpec| service@)
}

/// Unicode white space.
pub open spec fn is_white_space(c: char) -> bool {
    let u = c as u32;
    ||| 0x9 <= u <= 0xd
    ||| u == 0x20
    ||| u == 0x85
    ||| u == 0xa0
    ||| u == 0x1680
    ||| 0x2000 <= u <= 0x200a
    ||| u == 0x2028
    ||| u == 0x2029
    ||| u == 0x202f
    ||| u == 0x205f
    ||| u == 0x3000
}

/// A text without a character other than white space.
pub open spec fn is_blank(text: Seq<char>) -> bool {
    forall|i: int| 0 <= i < text.len() ==> is_white_space(#[trigger] text[i])
}

/// Whether a list holds a service of this identifier.
pub open spec fn has_service(services: Seq<ServiceView>, id: Seq<char>) -> bool {
    exists|i: int| 0 <= i < services.len() && (#[trigger] services[i]).id == id
}

/// No two services of a list share an identifier.
pub open spec fn unique_ids(services: Seq<ServiceView>) -> bool {
    forall|i: int, j: int|
        0 <= i < j < services.len() ==> (#[trigger] services[i]).id != (#[trigger] services[j]).id
}

/// The identifier at `i` is blank, or was used before in the list.
pub open spec fn has_id_fault(services: Seq<ServiceView>, i: int) -> bool {
    is_blank(services[i].id) || has_service(services.take(i), services[i].id)
}

/// The first service of a list whose identifier is at fault.
pub open spec fn is_first_id_fault(services: Seq<ServiceView>, i: int) -> bool {
    &&& 0 <= i < services.len()
    &&& has_id_fault(services, i)
    &&& forall|j: int| 0 <= j < i ==> !#[trigger] has_id_fault(services, j)
}

/// Every identifier is there and used once.
pub open spec fn has_sound_ids(services: Seq<ServiceView>) -> bool {
    forall|i: int| 0 <= i < services.len() ==> !#[trigger] has_id_fault(services, i)
}

/// The first dependency of a service that is in no service of the list.
pub open spec fn is_first_missing(
    services: Seq<ServiceView>,
    service: ServiceView,
    k: int,
) -> bool {
    &&& 0 <= k < service.dependencies.len()
    &&& !has_service(services, service.dependencies[k])
    &&& forall|m: int| 0 <= m < k ==> has_service(services, #[trigger] service.dependencies[m])
}

/// Every dependency of a service is in the list.
pub open spec fn has_known_dependencies(services: Seq<ServiceView>, service: ServiceView) -> bool {
    forall|k: int|
        0 <= k < service.dependencies.len() ==> has_service(
            services,
            #[trigger] service.dependencies[k],
        )
}

/// Every dependency of every service is in the list.
pub open spec fn all_dependencies_known(services: Seq<ServiceView>) -> bool {
    forall|i: int|
        0 <= i < services.len() ==> has_known_dependencies(services, #[trigger] services[i])
}

/// Of the services with a missing dependency, the one of the least identifier,
/// and its first missing dependency.
pub open spec fn is_reported_missing(services: Seq<ServiceView>, i: int, k: int) -> bool {
    &&& 0 <= i < services.len()
    &&& is_first_missing(services, services[i], k)
    &&& forall|j: int|
        0 <= j < services.len() && text::precedes((#[trigger] services[j]).id, services[i].id)
            ==> has_known_dependencies(services, services[j])
}

/// The words for a missing dependency.
pub open spec fn missing_text(id: Seq<char>, dependency: Seq<char>) -> Seq<char> {
    "service '"@ + id + "' depends on missing service '"@ + dependency + "'"@
}

/// `service` becomes ready as soon as the first `p` services of `order` are: its
/// dependencies are among these, and the last of these is one of them.
pub open spec fn is_ready_after(order: Seq<ServiceView>, service: ServiceView, p: int) -> bool {
    &&& 0 <= p <= order.len()
    &&& forall|k: int|
        0 <= k < service.dependencies.len() ==> has_service(
            order.take(p),
            #[trigger] service.dependencies[k],
        )
    &&& p > 0 ==> service.dependencies.contains(order[p - 1].id)
}

/// `order` holds the services of the list, each once.
pub open spec fn rearranges(services: Seq<ServiceView>, order: Seq<ServiceView>) -> bool {
    &&& order.len() == services.len()
    &&& unique_ids(order)
    &&& forall|i: int| 0 <= i < services.len() ==> order.contains(#[trigger] services[i])
    &&& forall|i: int| 0 <= i < order.len() ==> services.contains(#[trigger] order[i])
}

/// The start order of services: each comes after its dependencies, which it
/// names once; a service that becomes ready earlier comes earlier; and services
/// that become ready together come in the order of their identifiers.
pub open spec fn is_start_order(services: Seq<ServiceView>, order: Seq<ServiceView>) -> bool {
    &&& rearranges(services, order)
    &&& forall|i: int|
        0 <= i < order.len() ==> (#[trigger] order[i]).dependencies.no_duplicates() && exists|p: int|
            p <= i && is_ready_after(order, order[i], p)
    &&& forall|i: int, j: int, p: int, q: int|
        #![trigger is_ready_after(order, order[i], p), is_ready_after(order, order[j], q)]
        0 <= i < j < order.len() && is_ready_after(order, order[i], p) && is_ready_after(
            order,
            order[j],
            q,
        ) ==> p < q || (p == q && text::precedes(order[i].id, order[j].id))
}

/// Services that wait for each other: each names a dependency twice, or depends
/// on one of them.
pub open spec fn is_deadlock(services: Seq<ServiceView>, stuck: Set<Seq<char>>) -> bool {
    &&& exists|i: int| 0 <= i < services.len() && stuck.contains((#[trigger] services[i]).id)
    &&& forall|i: int|
        0 <= i < services.len() && stuck.contains((#[trigger] services[i]).id) ==> {
            ||| !services[i].dependencies.no_duplicates()
            ||| exists|k: int|
                0 <= k < services[i].dependencies.len() && stuck.contains(
                    #[trigger] services[i].dependencies[k],
                )
        }
}

/// Whether some services wait for each other.
pub open spec fn has_deadlock(services: Seq<ServiceView>) -> bool {
    exists|stuck: Set<Seq<char>>| is_deadlock(services, stuck)
}

/// Why a list of services makes no graph.
pub open spec fn is_graph_fault(services: Seq<ServiceView>, message: Seq<char>) -> bool {
    if services.len() == 0 {
        message == "at least one service is required"@
    } else if !has_sound_ids(services) {
        exists|i: int|
            #![trigger services[i]]
            is_first_id_fault(services, i) && message == if is_blank(services[i].id) {
                "service identifiers cannot be empty"@
            } else {
                "service identifiers must be unique"@
            }
    } else if !all_dependencies_known(services) {
        exists|i: int, k: int|
            #![trigger services[i].dependencies[k]]
            is_reported_missing(services, i, k) && message == missing_text(
                services[i].id,
                services[i].dependencies[k],
            )
    } else {
        has_deadlock(services) && message == "service dependencies contain a cycle"@
    }
}

/// Services that make a graph.
pub open spec fn makes_graph(services: Seq<ServiceView>) -> bool {
    &&& services.len() > 0
    &&& has_sound_ids(services)
    &&& all_dependencies_known(services)
    &&& !has_deadlock(services)
}

/// Whether a character is Unicode white space.
fn white_space(c: char) -> (white: bool)
    ensures
        white == is_white_space(c),
{
    let u = c as u32;
    (0x9 <= u && u <= 0xd) || u == 0x20 || u == 0x85 || u == 0xa0 || u == 0x1680 || (0x2000 <= u && u
        <= 0x200a) || u == 0x2028 || u == 0x2029 || u == 0x202f || u == 0x205f || u == 0x3000
}

/// Whether a text has nothing but white space.
fn blank(text: &str) -> (blank: bool)
    ensures
        blank == is_blank(text@),
{
    let chars = chars_of(text);
    for i in 0..chars.len()
        invariant
            chars@ == text@,
            forall|k: int| 0 <= k < i ==> is_white_space(#[trigger] text@[k]),
    {
        if !white_space(chars[i]) {
            assert(!is_white_space(text@[i as int]));
            return false;
        }
    }
    true
}

/// Whether a service depends on the service of an identifier.
fn depends_on(service: &ServiceSpec, id: &String) -> (found: bool)
    ensures
        found == service@.dependencies.contains(id@),
{
    for k in 0..service.dependencies.len()
        invariant
            forall|m: int| 0 <= m < k ==> service@.dependencies[m] != id@,
    {
        if service.dependencies[k] == *id {
            assert(service@.dependencies[k as int] == id@);
            return true;
        }
    }
    false
}

/// Whether a list holds a service of an identifier.
fn holds_service(services: &Vec<ServiceSpec>, id: &String) -> (found: bool)
    ensures
        found == has_service(service_views(services@), id@),
{
    for i in 0..services.len()
        invariant
            forall|m: int| 0 <= m < i ==> (#[trigger] service_views(services@)[m]).id != id@,
    {
        if services[i].id == *id {
            assert(service_views(services@)[i as int].id == id@);
            return true;
        }
    }
    false
}

/// A list in the order of its identifiers.
pub open spec fn sorted_by_id(services: Seq<ServiceView>) -> bool {
    forall|i: int, j: int|
        0 <= i < j < services.len() ==> text::precedes(
            (#[trigger] services[i]).id,
            (#[trigger] services[j]).id,
        )
}

proof fn lemma_sorted_unique(services: Seq<ServiceView>)
    requires
        sorted_by_id(services),
    ensures
        unique_ids(services),
{
    assert forall|i: int, j: int| 0 <= i < j < services.len() implies (#[trigger] services[i]).id != (
    #[trigger] services[j]).id by {
        text::lemma_precedes_asymmetric(services[i].id, services[j].id);
    }
}

/// A service goes between those that come before it and those that do not.
proof fn lemma_insert_sorted(nodes: Seq<ServiceView>, p: int, service: ServiceView)
    requires
        sorted_by_id(nodes),
        0 <= p <= nodes.len(),
        forall|k: int| 0 <= k < p ==> text::precedes((#[trigger] nodes[k]).id, service.id),
        p < nodes.len() ==> !text::precedes(nodes[p].id, service.id),
    ensures
        p < nodes.len() && nodes[p].id == service.id || {
            &&& !has_service(nodes, service.id)
            &&& sorted_by_id(nodes.insert(p, service))
        },
{
    if p < nodes.len() && nodes[p].id == service.id {
    } else {
        assert forall|k: int| p <= k < nodes.len() implies text::precedes(
            service.id,
            (#[trigger] nodes[k]).id,
        ) by {
            text::lemma_precedes_total(service.id, nodes[p].id);
            if k > p {
                text::lemma_precedes_transitive(service.id, nodes[p].id, nodes[k].id);
            }
        }
        assert forall|k: int| 0 <= k < nodes.len() implies (#[trigger] nodes[k]).id != service.id by {
            text::lemma_precedes_asymmetric(nodes[k].id, service.id);
            text::lemma_precedes_asymmetric(service.id, nodes[k].id);
        }
        let grown = nodes.insert(p, service);
        assert forall|i: int, j: int| 0 <= i < j < grown.len() implies text::precedes(
            (#[trigger] grown[i]).id,
            (#[trigger] grown[j]).id,
        ) by {
            let a = if i < p { i } else { i - 1 };
            let b = if j < p { j } else { j - 1 };
            if i != p {
                assert(grown[i] == nodes[a]);
            }
            if j != p {
                assert(grown[j] == nodes[b]);
            }
        }
    }
}

/// The services in the order of their identifiers, or the first identifier that
/// is at fault.
fn sort_services(services: &Vec<ServiceSpec>) -> (sorted: CoreResult<Vec<ServiceSpec>>)
    requires
        services@.len() > 0,
    ensures
        match sorted {
            Ok(nodes) => {
                &&& has_sound_ids(service_views(services@))
                &&& sorted_by_id(service_views(nodes@))
                &&& rearranges(service_views(services@), service_views(nodes@))
            },
            Err(error) => error@ matches ErrorView::InvalidServiceGraph(message)
                && !has_sound_ids(service_views(services@)) && is_graph_fault(
                service_views(services@),
                message,
            ),
        },
{
    let ghost views = service_views(services@);
    let mut nodes: Vec<ServiceSpec> = Vec::new();
    for i in 0..services.len()
        invariant
            views == service_views(services@),
            nodes.len() == i,
            sorted_by_id(service_views(nodes@)),
            rearranges(views.take(i as int), service_views(nodes@)),
            forall|j: int| 0 <= j < i ==> !#[trigger] has_id_fault(views, j),
    {
        let ghost before = service_views(nodes@);
        let service = &services[i];
        let ghost view = views[i as int];
        assert(view == service@);
        if blank(service.id.as_str()) {
            assert(is_first_id_fault(views, i as int));
            return Err(
                CoreError::InvalidServiceGraph("service identifiers cannot be empty".to_owned()),
            );
        }
        let mut p: usize = 0;
        while p < nodes.len() && comes_before(nodes[p].id.as_str(), service.id.as_str())
            invariant
                p <= nodes.len(),
                before == service_views(nodes@),
                view == service@,
                forall|k: int| 0 <= k < p ==> text::precedes((#[trigger] before[k]).id, view.id),
            ensures
                p < nodes.len() ==> !text::precedes(before[p as int].id, view.id),
            decreases nodes.len() - p,
        {
            assert(before[p as int] == nodes@[p as int]@);
            p += 1;
        }
        proof {
            lemma_insert_sorted(before, p as int, view);
        }
        if p < nodes.len() && nodes[p].id == service.id {
            assert(before[p as int].id == view.id);
            assert(views.take(i as int).contains(before[p as int]));
            let ghost w = choose|w: int| 0 <= w < i && views.take(i as int)[w] == before[p as int];
            assert(has_service(views.take(i as int), view.id));
            assert(is_first_id_fault(views, i as int));
            return Err(
                CoreError::InvalidServiceGraph("service identifiers must be unique".to_owned()),
            );
        }
        nodes.insert(p, service.clone());
        proof {
            let after = service_views(nodes@);
            assert(after =~= before.insert(p as int, view));
            lemma_sorted_unique(after);
            if has_service(views.take(i as int), view.id) {
                let w = choose|w: int|
                    0 <= w < i && (#[trigger] views.take(i as int)[w]).id == view.id;
                assert(before.contains(views.take(i as int)[w]));
            }
            assert(!has_id_fault(views, i as int));
            let taken = views.take(i + 1);
            assert forall|j: int| 0 <= j < taken.len() implies after.contains(#[trigger] taken[j]) by {
                if j < i {
                    assert(taken[j] == views.take(i as int)[j]);
                    let b = choose|b: int| 0 <= b < before.len() && before[b] == taken[j];
                    assert(after[if b < p { b } else { b + 1 }] == taken[j]);
                } else {
                    assert(after[p as int] == taken[j]);
                }
            }
            assert forall|j: int| 0 <= j < after.len() implies taken.contains(#[trigger] after[j]) by {
                if j == p {
                    assert(taken[i as int] == after[j]);
                } else {
                    let b = if j < p { j } else { j - 1 };
                    assert(after[j] == before[b]);
                    assert(views.take(i as int).contains(before[b]));
                    let w = choose|w: int| 0 <= w < i && views.take(i as int)[w] == before[b];
                    assert(taken[w] == after[j]);
                }
            }
        }
    }
    assert(views.take(views.len() as int) =~= views);
    Ok(nodes)
}

/// A rearranged list holds services of the same identifiers.
proof fn lemma_rearranged_ids(services: Seq<ServiceView>, nodes: Seq<ServiceView>)
    requires
        rearranges(services, nodes),
    ensures
        forall|id: Seq<char>| #[trigger] has_service(services, id) == has_service(nodes, id),
{
    assert forall|id: Seq<char>| #[trigger]
        has_service(services, id) == has_service(nodes, id) by {
        if has_service(services, id) {
            let i = choose|i: int| 0 <= i < services.len() && (#[trigger] services[i]).id == id;
            assert(nodes.contains(services[i]));
            let j = choose|j: int| 0 <= j < nodes.len() && nodes[j] == services[i];
            assert(nodes[j].id == id);
        }
        if has_service(nodes, id) {
            let i = choose|i: int| 0 <= i < nodes.len() && (#[trigger] nodes[i]).id == id;
            assert(services.contains(nodes[i]));
            let j = choose|j: int| 0 <= j < services.len() && services[j] == nodes[i];
            assert(services[j].id == id);
        }
    }
}

/// Checks that every dependency is in the list; services are looked at in the
/// order of their identifiers.
fn check_dependencies(Ghost(services): Ghost<Seq<ServiceView>>, nodes: &Vec<ServiceSpec>) -> (checked:
    CoreResult<()>)
    requires
        services.len() > 0,
        has_sound_ids(services),
        sorted_by_id(service_views(nodes@)),
        rearranges(services, service_views(nodes@)),
    ensures
        match checked {
            Ok(_) => all_dependencies_known(services),
            Err(error) => error@ matches ErrorView::InvalidServiceGraph(message)
                && !all_dependencies_known(services) && is_graph_fault(services, message),
        },
{
    let ghost views = service_views(nodes@);
    proof {
        lemma_rearranged_ids(services, views);
    }
    for i in 0..nodes.len()
        invariant
            services.len() > 0,
            has_sound_ids(services),
            views == service_views(nodes@),
            sorted_by_id(views),
            rearranges(services, views),
            forall|id: Seq<char>| #[trigger] has_service(services, id) == has_service(views, id),
            forall|j: int| 0 <= j < i ==> has_known_dependencies(services, #[trigger] views[j]),
    {
        let service = &nodes[i];
        assert(views[i as int] == service@);
        for k in 0..service.dependencies.len()
            invariant
                i < nodes.len(),
                services.len() > 0,
                has_sound_ids(services),
                views == service_views(nodes@),
                sorted_by_id(views),
                rearranges(services, views),
                forall|id: Seq<char>| #[trigger] has_service(services, id) == has_service(views, id),
                forall|j: int| 0 <= j < i ==> has_known_dependencies(services, #[trigger] views[j]),
                views[i as int] == service@,
                forall|m: int|
                    0 <= m < k ==> has_service(services, #[trigger] service@.dependencies[m]),
        {
            let dependency = &service.dependencies[k];
            assert(service@.dependencies[k as int] == dependency@);
            if !holds_service(nodes, dependency) {
                let mut message = "service '".to_owned();
                message.append(service.id.as_str());
                message.append("' depends on missing service '");
                message.append(dependency.as_str());
                message.append("'");
                proof {
                    assert(services.contains(views[i as int]));
                    let w = choose|w: int| 0 <= w < services.len() && services[w] == views[i as int];
                    assert(is_first_missing(services, services[w], k as int));
                    assert forall|j: int|
                        0 <= j < services.len() && text::precedes(
                            (#[trigger] services[j]).id,
                            services[w].id,
                        ) implies has_known_dependencies(services, services[j]) by {
                        assert(views.contains(services[j]));
                        let m = choose|m: int| 0 <= m < views.len() && views[m] == services[j];
                        text::lemma_precedes_asymmetric(services[j].id, services[w].id);
                        assert(m < i);
                        assert(has_known_dependencies(services, views[m]));
                    }
                    assert(is_reported_missing(services, w, k as int));
                    assert(message@ == missing_text(
                        services[w].id,
                        services[w].dependencies[k as int],
                    ));
                    assert(!has_known_dependencies(services, services[w]));
                }
                return Err(CoreError::InvalidServiceGraph(message));
            }
        }
        assert(has_known_dependencies(services, views[i as int]));
    }
    proof {
        assert forall|i: int| 0 <= i < services.len() implies has_known_dependencies(
            services,
            #[trigger] services[i],
        ) by {
            assert(views.contains(services[i]));
            let m = choose|m: int| 0 <= m < views.len() && views[m] == services[i];
            assert(has_known_dependencies(services, views[m]));
        }
    }
    Ok(())
}

/// How many of the first `p` services of `order` are dependencies of `service`.
spec fn started_dependencies(order: Seq<ServiceView>, service: ServiceView, p: nat) -> nat
    decreases p,
{
    if p == 0 {
        0
    } else {
        started_dependencies(order, service, (p - 1) as nat) + if service.dependencies.contains(
            order[p - 1].id,
        ) {
            1nat
        } else {
            0nat
        }
    }
}

/// The dependencies of `service` among the first `p` services of `order`.
spec fn started_set(order: Seq<ServiceView>, service: ServiceView, p: nat) -> Set<Seq<char>>
    decreases p,
{
    if p == 0 {
        Set::empty()
    } else if service.dependencies.contains(order[p - 1].id) {
        started_set(order, service, (p - 1) as nat).insert(order[p - 1].id)
    } else {
        started_set(order, service, (p - 1) as nat)
    }
}

proof fn lemma_started_set(order: Seq<ServiceView>, service: ServiceView, p: nat)
    requires
        p <= order.len(),
        unique_ids(order),
    ensures
        started_set(order, service, p).finite(),
        started_set(order, service, p).len() == started_dependencies(order, service, p),
        forall|id: Seq<char>| #[trigger]
            started_set(order, service, p).contains(id) <==> service.dependencies.contains(id)
                && has_service(order.take(p as int), id),
    decreases p,
{
    let set = started_set(order, service, p);
    if p > 0 {
        let q = (p - 1) as nat;
        lemma_started_set(order, service, q);
        let last = order[p - 1].id;
        assert(!has_service(order.take(q as int), last)) by {
            if has_service(order.take(q as int), last) {
                let i = choose|i: int| 0 <= i < q && (#[trigger] order.take(q as int)[i]).id == last;
                assert(order[i].id == order[p - 1].id);
            }
        }
        assert forall|id: Seq<char>| #[trigger]
            set.contains(id) <==> service.dependencies.contains(id) && has_service(
                order.take(p as int),
                id,
            ) by {
            if has_service(order.take(p as int), id) {
                let i = choose|i: int| 0 <= i < p && (#[trigger] order.take(p as int)[i]).id == id;
                if i < q {
                    assert(order.take(q as int)[i].id == id);
                    assert(has_service(order.take(q as int), id));
                }
            }
            if has_service(order.take(q as int), id) {
                let i = choose|i: int| 0 <= i < q && (#[trigger] order.take(q as int)[i]).id == id;
                assert(order.take(p as int)[i].id == id);
            }
            assert(order.take(p as int)[p - 1].id == last);
            assert(started_set(order, service, q).contains(id) <==> service.dependencies.contains(id)
                && has_service(order.take(q as int), id));
        }
    }
}

/// All dependencies of a service have started when as many of them have as it
/// names, and then it names none twice.
proof fn lemma_all_started(order: Seq<ServiceView>, service: ServiceView, p: nat)
    requires
        p <= order.len(),
        unique_ids(order),
    ensures
        started_dependencies(order, service, p) <= service.dependencies.len(),
        started_dependencies(order, service, p) == service.dependencies.len() <==> (
        service.dependencies.no_duplicates() && forall|k: int|
            0 <= k < service.dependencies.len() ==> has_service(
                order.take(p as int),
                #[trigger] service.dependencies[k],
            )),
{
    let names = service.dependencies;
    let set = started_set(order, service, p);
    lemma_started_set(order, service, p);
    names.lemma_cardinality_of_set();
    assert(set.subset_of(names.to_set()));
    vstd::set_lib::lemma_len_subset(set, names.to_set());
    if set.len() == names.len() {
        vstd::seq_lib::seq_to_set_is_finite(names);
        vstd::set_lib::lemma_subset_equality(set, names.to_set());
        names.lemma_no_dup_set_cardinality();
        assert forall|k: int| 0 <= k < names.len() implies has_service(
            order.take(p as int),
            #[trigger] names[k],
        ) by {
            assert(names.to_set().contains(names[k]));
            assert(set.contains(names[k]));
        }
    }
    if names.no_duplicates() && forall|k: int|
        0 <= k < names.len() ==> has_service(order.take(p as int), #[trigger] names[k]) {
        names.unique_seq_to_set();
        assert(names.to_set().subset_of(set)) by {
            assert forall|id: Seq<char>| names.to_set().contains(id) implies set.contains(id) by {
                assert(names.contains(id));
                let k = choose|k: int| 0 <= k < names.len() && names[k] == id;
                assert(has_service(order.take(p as int), names[k]));
            }
        }
        assert(set =~= names.to_set());
    }
}

/// The services at some places of a list.
spec fn picked(nodes: Seq<ServiceView>, places: Seq<usize>) -> Seq<ServiceView> {
    places.map_values(|place: usize| nodes[place as int])
}

/// The places are of the list, and no place comes twice.
spec fn are_places(nodes: Seq<ServiceView>, places: Seq<usize>) -> bool {
    &&& places.no_duplicates()
    &&& forall|j: int| 0 <= j < places.len() ==> (#[trigger] places[j]) < nodes.len()
}

/// What holds of the queue after its first `done` services have started:
/// `ready[j]` services had started when the service at `places[j]` became ready.
spec fn is_queue(
    nodes: Seq<ServiceView>,
    places: Seq<usize>,
    ready: Seq<int>,
    done: int,
) -> bool {
    let order = picked(nodes, places);
    &&& are_places(nodes, places)
    &&& ready.len() == places.len()
    &&& forall|j: int|
        0 <= j < places.len() ==> {
            &&& 0 <= (#[trigger] ready[j]) <= j
            &&& ready[j] <= done
            &&& order[j].dependencies.no_duplicates()
            &&& is_ready_after(order, order[j], ready[j])
        }
    &&& forall|i: int, j: int|
        0 <= i < j < places.len() ==> (#[trigger] ready[i]) < (#[trigger] ready[j]) || (ready[i]
            == ready[j] && places[i] < places[j])
}

proof fn lemma_picked_unique(nodes: Seq<ServiceView>, places: Seq<usize>)
    requires
        sorted_by_id(nodes),
        are_places(nodes, places),
    ensures
        unique_ids(picked(nodes, places)),
{
    lemma_sorted_unique(nodes);
    let order = picked(nodes, places);
    assert forall|i: int, j: int| 0 <= i < j < order.len() implies (#[trigger] order[i]).id != (
    #[trigger] order[j]).id by {
        assert(places[i] != places[j]);
        if places[i] < places[j] {
            assert(nodes[places[i] as int].id != nodes[places[j] as int].id);
        } else {
            assert(nodes[places[j] as int].id != nodes[places[i] as int].id);
        }
    }
}

/// Becoming ready depends on the services that have started, not on later ones.
proof fn lemma_ready_after_stable(
    order: Seq<ServiceView>,
    next: ServiceView,
    service: ServiceView,
    p: int,
)
    requires
        0 <= p <= order.len(),
    ensures
        is_ready_after(order.push(next), service, p) == is_ready_after(order, service, p),
{
    assert(order.push(next).take(p) =~= order.take(p));
}

proof fn lemma_started_stable(
    order: Seq<ServiceView>,
    next: ServiceView,
    service: ServiceView,
    p: nat,
)
    requires
        p <= order.len(),
    ensures
        started_dependencies(order.push(next), service, p) == started_dependencies(
            order,
            service,
            p,
        ),
    decreases p,
{
    if p > 0 {
        lemma_started_stable(order, next, service, (p - 1) as nat);
    }
}

/// A service joins the queue when the last of its dependencies has started.
proof fn lemma_enqueue(
    nodes: Seq<ServiceView>,
    places: Seq<usize>,
    ready: Seq<int>,
    done: int,
    place: usize,
)
    requires
        sorted_by_id(nodes),
        is_queue(nodes, places, ready, done),
        0 <= done <= places.len(),
        place < nodes.len(),
        !places.contains(place),
        started_dependencies(picked(nodes, places), nodes[place as int], done as nat)
            == nodes[place as int].dependencies.len(),
        done > 0 ==> nodes[place as int].dependencies.contains(picked(nodes, places)[done - 1].id),
        forall|i: int| 0 <= i < places.len() && ready[i] == done ==> (#[trigger] places[i]) < place,
    ensures
        is_queue(nodes, places.push(place), ready.push(done), done),
        picked(nodes, places.push(place)) == picked(nodes, places).push(nodes[place as int]),
{
    let order = picked(nodes, places);
    let service = nodes[place as int];
    let longer = places.push(place);
    let order2 = picked(nodes, longer);
    let ready2 = ready.push(done);
    assert(order2 =~= order.push(service));
    lemma_picked_unique(nodes, places);
    lemma_all_started(order, service, done as nat);
    assert(is_ready_after(order, service, done));
    assert(are_places(nodes, longer)) by {
        assert forall|i: int, j: int|
            0 <= i < longer.len() && 0 <= j < longer.len() && i != j implies longer[i]
            != longer[j] by {
            if i == places.len() {
                assert(places.contains(longer[j]));
            } else if j == places.len() {
                assert(places.contains(longer[i]));
            }
        }
    }
    assert forall|j: int| 0 <= j < longer.len() implies {
        &&& 0 <= (#[trigger] ready2[j]) <= j
        &&& ready2[j] <= done
        &&& order2[j].dependencies.no_duplicates()
        &&& is_ready_after(order2, order2[j], ready2[j])
    } by {
        if j < places.len() {
            assert(ready2[j] == ready[j]);
            lemma_ready_after_stable(order, service, order[j], ready[j]);
        } else {
            lemma_ready_after_stable(order, service, service, done);
        }
    }
    assert forall|i: int, j: int| 0 <= i < j < longer.len() implies (#[trigger] ready2[i]) < (
    #[trigger] ready2[j]) || (ready2[i] == ready2[j] && longer[i] < longer[j]) by {
        if j < places.len() {
            assert(ready2[i] == ready[i] && ready2[j] == ready[j]);
        } else {
            assert(ready2[i] == ready[i] && ready[i] <= done);
            assert(places[i] == longer[i]);
        }
    }
}

/// The places of services that start, in the order in which they do: a service
/// is queued once all its dependencies have started. Left out are those that
/// never come to that.
#[verifier::rlimit(60)]
fn start_places(nodes: &Vec<ServiceSpec>) -> (places: Vec<usize>)
    requires
        sorted_by_id(service_views(nodes@)),
    ensures
        exists|ready: Seq<int>|
            is_queue(service_views(nodes@), places@, ready, places@.len() as int),
        forall|c: int|
            #![trigger nodes@[c]]
            0 <= c < nodes.len() && !places@.contains(c as usize) ==> started_dependencies(
                picked(service_views(nodes@), places@),
                service_views(nodes@)[c],
                places@.len(),
            ) < service_views(nodes@)[c].dependencies.len(),
{
    let ghost views = service_views(nodes@);
    let mut waiting: Vec<usize> = Vec::new();
    let mut places: Vec<usize> = Vec::new();
    let ghost mut ready: Seq<int> = Seq::empty();
    for c in 0..nodes.len()
        invariant
            views == service_views(nodes@),
            sorted_by_id(views),
            waiting.len() == c,
            is_queue(views, places@, ready, 0),
            forall|m: int|
                0 <= m < c ==> #[trigger] waiting@[m] == views[m].dependencies.len(),
            forall|m: int|
                0 <= m < c ==> (#[trigger] waiting@[m] == 0 <==> places@.contains(m as usize)),
            forall|j: int| 0 <= j < places.len() ==> (#[trigger] places@[j]) < c,
    {
        let count = nodes[c].dependencies.len();
        assert(views[c as int] == nodes@[c as int]@);
        assert(!places@.contains(c));
        let ghost before = places@;
        waiting.push(count);
        if count == 0 {
            proof {
                lemma_enqueue(views, places@, ready, 0, c);
                ready = ready.push(0);
            }
            places.push(c);
            assert(places@[places@.len() - 1] == c);
        }
        assert forall|m: int| 0 <= m < c + 1 implies (#[trigger] waiting@[m] == 0
            <==> places@.contains(m as usize)) by {
            if m < c {
                if before.contains(m as usize) {
                    let j = choose|j: int| 0 <= j < before.len() && before[j] == m as usize;
                    assert(places@[j] == m as usize);
                }
                if places@.contains(m as usize) {
                    let j = choose|j: int| 0 <= j < places@.len() && places@[j] == m as usize;
                    assert(before[j] == m as usize);
                }
            }
        }
    }
    proof {
        lemma_places_bounded(views, places@);
    }
    let mut done: usize = 0;
    while done < places.len()
        invariant
            views == service_views(nodes@),
            sorted_by_id(views),
            done <= places.len() <= nodes.len(),
            waiting.len() == nodes.len(),
            is_queue(views, places@, ready, done as int),
            forall|m: int|
                0 <= m < nodes.len() ==> #[trigger] waiting@[m] == views[m].dependencies.len()
                    - started_dependencies(picked(views, places@), views[m], done as nat),
            forall|m: int|
                0 <= m < nodes.len() ==> (#[trigger] waiting@[m] == 0 <==> places@.contains(
                    m as usize,
                )),
        decreases nodes.len() - done,
    {
        let current = places[done];
        let ghost start = done as int;
        done += 1;
        for c in 0..nodes.len()
            invariant
                views == service_views(nodes@),
                sorted_by_id(views),
                waiting.len() == nodes.len(),
                done == start + 1,
                0 <= start < places.len(),
                current == places@[start],
                is_queue(views, places@, ready, done as int),
                forall|m: int|
                    0 <= m < c ==> #[trigger] waiting@[m] == views[m].dependencies.len()
                        - started_dependencies(picked(views, places@), views[m], done as nat),
                forall|m: int|
                    c <= m < nodes.len() ==> #[trigger] waiting@[m] == views[m].dependencies.len()
                        - started_dependencies(picked(views, places@), views[m], start as nat),
                forall|m: int|
                    0 <= m < nodes.len() ==> (#[trigger] waiting@[m] == 0 <==> places@.contains(
                        m as usize,
                    )),
                forall|j: int|
                    0 <= j < places.len() && ready[j] == done ==> (#[trigger] places@[j]) < c,
        {
            let ghost order = picked(views, places@);
            let ghost before = places@;
            let ghost counts = waiting@;
            assert(current < nodes.len());
            assert(order[start] == views[current as int]);
            assert(views[current as int] == nodes@[current as int]@);
            assert(views[c as int] == nodes@[c as int]@);
            proof {
                lemma_picked_unique(views, places@);
                lemma_all_started(order, views[c as int], done as nat);
            }
            if depends_on(&nodes[c], &nodes[current].id) {
                assert(started_dependencies(order, views[c as int], done as nat)
                    == started_dependencies(order, views[c as int], start as nat) + 1);
                let count: usize = waiting[c] - 1;
                waiting.set(c, count);
                assert(counts[c as int] != 0);
                assert(!places@.contains(c));
                if count == 0 {
                    proof {
                        lemma_enqueue(views, places@, ready, done as int, c);
                        ready = ready.push(done as int);
                        assert forall|m: int, p: nat| 0 <= m < nodes.len() && p
                            <= done implies #[trigger] started_dependencies(
                            order.push(views[c as int]),
                            views[m],
                            p,
                        ) == started_dependencies(order, views[m], p) by {
                            lemma_started_stable(order, views[c as int], views[m], p);
                        }
                    }
                    places.push(c);
                    assert(places@[places@.len() - 1] == c);
                }
                assert forall|m: int| 0 <= m < nodes.len() implies (#[trigger] waiting@[m] == 0
                    <==> places@.contains(m as usize)) by {
                    if m != c {
                        assert(waiting@[m] == counts[m]);
                        if before.contains(m as usize) {
                            let j = choose|j: int| 0 <= j < before.len() && before[j] == m as usize;
                            assert(places@[j] == m as usize);
                        }
                        if places@.contains(m as usize) {
                            let j = choose|j: int|
                                0 <= j < places@.len() && places@[j] == m as usize;
                            assert(before[j] == m as usize);
                        }
                    }
                }
            }
        }
        proof {
            lemma_places_bounded(views, places@);
        }
    }
    proof {
        lemma_picked_unique(views, places@);
        assert forall|c: int|
            #![trigger nodes@[c]]
            0 <= c < nodes.len() && !places@.contains(c as usize) implies started_dependencies(
            picked(views, places@),
            views[c],
            places@.len(),
        ) < views[c].dependencies.len() by {
            lemma_all_started(picked(views, places@), views[c], places@.len());
            assert(waiting@[c] != 0);
        }
    }
    places
}

/// There are no more places than services.
proof fn lemma_places_bounded(nodes: Seq<ServiceView>, places: Seq<usize>)
    requires
        are_places(nodes, places),
    ensures
        places.len() <= nodes.len(),
{
    let range = vstd::set_lib::set_int_range(0, nodes.len() as int);
    vstd::set_lib::lemma_int_range(0, nodes.len() as int);
    let wide = places.map_values(|i: usize| i as int);
    assert(wide.no_duplicates()) by {
        assert forall|i: int, j: int|
            0 <= i < wide.len() && 0 <= j < wide.len() && i != j implies wide[i] != wide[j] by {
            assert(places[i] != places[j]);
        }
    }
    wide.unique_seq_to_set();
    assert(wide.to_set().subset_of(range)) by {
        assert forall|x: int| wide.to_set().contains(x) implies range.contains(x) by {
            assert(wide.contains(x));
            let i = choose|i: int| 0 <= i < wide.len() && wide[i] == x;
            assert(places[i] < nodes.len());
        }
    }
    vstd::set_lib::lemma_len_subset(wide.to_set(), range);
}

/// As many places as services are all the places there are.
proof fn lemma_places_complete(nodes: Seq<ServiceView>, places: Seq<usize>)
    requires
        are_places(nodes, places),
        places.len() == nodes.len(),
    ensures
        forall|c: usize| c < nodes.len() ==> #[trigger] places.contains(c),
{
    assert forall|c: usize| c < nodes.len() implies #[trigger] places.contains(c) by {
        if !places.contains(c) {
            let more = places.push(c);
            assert forall|i: int, j: int|
                0 <= i < more.len() && 0 <= j < more.len() && i != j implies more[i] != more[j] by {
                if i == places.len() {
                    assert(places.contains(more[j]));
                } else if j == places.len() {
                    assert(places.contains(more[i]));
                }
            }
            lemma_places_bounded(nodes, more);
        }
    }
}

/// A service becomes ready once.
proof fn lemma_ready_once(order: Seq<ServiceView>, service: ServiceView, p: int, q: int)
    requires
        unique_ids(order),
        is_ready_after(order, service, p),
        is_ready_after(order, service, q),
    ensures
        p == q,
{
    lemma_ready_not_later(order, service, p, q);
    lemma_ready_not_later(order, service, q, p);
}

proof fn lemma_ready_not_later(order: Seq<ServiceView>, service: ServiceView, p: int, q: int)
    requires
        unique_ids(order),
        is_ready_after(order, service, p),
        is_ready_after(order, service, q),
    ensures
        q <= p,
{
    if p < q {
        let last = order[q - 1].id;
        let k = choose|k: int|
            0 <= k < service.dependencies.len() && service.dependencies[k] == last;
        assert(has_service(order.take(p), service.dependencies[k]));
        let i = choose|i: int| 0 <= i < p && (#[trigger] order.take(p)[i]).id == last;
        assert(order[i].id == order[q - 1].id);
    }
}

/// When every service has started, the queue is the start order.
proof fn lemma_queue_is_start_order(
    services: Seq<ServiceView>,
    nodes: Seq<ServiceView>,
    places: Seq<usize>,
    ready: Seq<int>,
)
    requires
        rearranges(services, nodes),
        sorted_by_id(nodes),
        is_queue(nodes, places, ready, places.len() as int),
        places.len() == nodes.len(),
    ensures
        is_start_order(services, picked(nodes, places)),
{
    let order = picked(nodes, places);
    lemma_picked_unique(nodes, places);
    lemma_places_complete(nodes, places);
    assert forall|i: int| 0 <= i < services.len() implies order.contains(#[trigger] services[i]) by {
        assert(nodes.contains(services[i]));
        let c = choose|c: int| 0 <= c < nodes.len() && nodes[c] == services[i];
        lemma_index_fits(nodes, places, c);
        assert(places.contains(c as usize));
        let j = choose|j: int| 0 <= j < places.len() && places[j] == c as usize;
        assert(order[j] == services[i]);
    }
    assert forall|j: int| 0 <= j < order.len() implies services.contains(#[trigger] order[j]) by {
        assert(places[j] < nodes.len());
        assert(services.contains(nodes[places[j] as int]));
    }
    assert forall|j: int| 0 <= j < order.len() implies (
    #[trigger] order[j]).dependencies.no_duplicates() && exists|p: int|
        p <= j && is_ready_after(order, order[j], p) by {
        assert(0 <= ready[j] <= j);
        assert(is_ready_after(order, order[j], ready[j]));
    }
    assert forall|i: int, j: int, p: int, q: int|
        #![trigger is_ready_after(order, order[i], p), is_ready_after(order, order[j], q)]
        0 <= i < j < order.len() && is_ready_after(order, order[i], p) && is_ready_after(
            order,
            order[j],
            q,
        ) implies p < q || (p == q && text::precedes(order[i].id, order[j].id)) by {
        assert(ready[i] < ready[j] || (ready[i] == ready[j] && places[i] < places[j]));
        lemma_ready_once(order, order[i], p, ready[i]);
        lemma_ready_once(order, order[j], q, ready[j]);
    }
}

/// Places are machine integers, so a list of as many services has no other.
proof fn lemma_index_fits(nodes: Seq<ServiceView>, places: Seq<usize>, c: int)
    requires
        are_places(nodes, places),
        places.len() == nodes.len(),
        0 <= c < nodes.len(),
    ensures
        c as usize == c,
{
    if c > usize::MAX {
        lemma_places_bounded(nodes.take(usize::MAX as int + 1), places);
    }
}

/// Where the queue runs dry early, the services left out wait for each other.
proof fn lemma_left_out_deadlock(
    services: Seq<ServiceView>,
    nodes: Seq<ServiceView>,
    places: Seq<usize>,
)
    requires
        rearranges(services, nodes),
        all_dependencies_known(services),
        sorted_by_id(nodes),
        are_places(nodes, places),
        places.len() < nodes.len() <= usize::MAX,
        forall|c: int|
            #![trigger nodes[c]]
            0 <= c < nodes.len() && !places.contains(c as usize) ==> started_dependencies(
                picked(nodes, places),
                nodes[c],
                places.len(),
            ) < nodes[c].dependencies.len(),
    ensures
        has_deadlock(services),
{
    let started = picked(nodes, places);
    assert(started.take(started.len() as int) =~= started);
    let stuck = Set::new(|id: Seq<char>| has_service(nodes, id) && !has_service(started, id));
    lemma_sorted_unique(nodes);
    lemma_picked_unique(nodes, places);
    lemma_rearranged_ids(services, nodes);
    assert(exists|x: usize| x < nodes.len() && !#[trigger] places.contains(x)) by {
        if forall|x: usize| x < nodes.len() ==> #[trigger] places.contains(x) {
            let all = Seq::new(nodes.len(), |c: int| c as usize);
            assert(all.no_duplicates());
            all.unique_seq_to_set();
            places.unique_seq_to_set();
            assert(all.to_set().subset_of(places.to_set())) by {
                assert forall|x: usize| all.to_set().contains(x) implies places.to_set().contains(
                    x,
                ) by {
                    assert(all.contains(x));
                    assert(places.contains(x));
                }
            }
            vstd::seq_lib::seq_to_set_is_finite(places);
            vstd::set_lib::lemma_len_subset(all.to_set(), places.to_set());
        }
    }
    assert forall|c: int|
        0 <= c < nodes.len() implies stuck.contains((#[trigger] nodes[c]).id) == !places.contains(
        c as usize,
    ) by {
        if has_service(started, nodes[c].id) {
            let j = choose|j: int| 0 <= j < started.len() && (#[trigger] started[j]).id == nodes[c].id;
            assert(nodes[places[j] as int].id == nodes[c].id);
            assert(places[j] == c as usize);
        }
        if places.contains(c as usize) {
            let j = choose|j: int| 0 <= j < places.len() && places[j] == c as usize;
            assert(started[j].id == nodes[c].id);
        }
    }
    let x = choose|x: usize| x < nodes.len() && !#[trigger] places.contains(x);
    let c = x as int;
    assert(services.contains(nodes[c]));
    let w = choose|w: int| 0 <= w < services.len() && services[w] == nodes[c];
    assert(stuck.contains(services[w].id));
    assert forall|i: int|
        0 <= i < services.len() && stuck.contains((#[trigger] services[i]).id) implies {
        ||| !services[i].dependencies.no_duplicates()
        ||| exists|k: int|
            0 <= k < services[i].dependencies.len() && stuck.contains(
                #[trigger] services[i].dependencies[k],
            )
    } by {
        let service = services[i];
        assert(nodes.contains(service));
        let m = choose|m: int| 0 <= m < nodes.len() && nodes[m] == service;
        assert(stuck.contains(nodes[m].id));
        lemma_all_started(started, service, started.len());
        if service.dependencies.no_duplicates() {
            let k = choose|k: int|
                0 <= k < service.dependencies.len() && !has_service(
                    started.take(started.len() as int),
                    #[trigger] service.dependencies[k],
                );
            assert(has_known_dependencies(services, services[i]));
            assert(has_service(services, service.dependencies[k]));
            assert(stuck.contains(service.dependencies[k]));
        }
    }
    assert(is_deadlock(services, stuck));
}

/// Services that wait for each other have no start order.
pub proof fn law_deadlock_has_no_start_order(
    services: Seq<ServiceView>,
    order: Seq<ServiceView>,
    stuck: Set<Seq<char>>,
)
    requires
        is_deadlock(services, stuck),
    ensures
        !is_start_order(services, order),
{
    if is_start_order(services, order) {
        let i = choose|i: int| 0 <= i < services.len() && stuck.contains((#[trigger] services[i]).id);
        assert(order.contains(services[i]));
        let j = choose|j: int| 0 <= j < order.len() && order[j] == services[i];
        lemma_ordered_not_stuck(services, order, stuck, j);
    }
}

/// Services that have a start order do not wait for each other.
proof fn lemma_order_has_no_deadlock(services: Seq<ServiceView>, order: Seq<ServiceView>)
    requires
        is_start_order(services, order),
    ensures
        !has_deadlock(services),
{
    assert forall|stuck: Set<Seq<char>>| !is_deadlock(services, stuck) by {
        if is_deadlock(services, stuck) {
            law_deadlock_has_no_start_order(services, order, stuck);
        }
    }
}

proof fn lemma_ordered_not_stuck(
    services: Seq<ServiceView>,
    order: Seq<ServiceView>,
    stuck: Set<Seq<char>>,
    j: int,
)
    requires
        is_deadlock(services, stuck),
        is_start_order(services, order),
        0 <= j < order.len(),
    ensures
        !stuck.contains(order[j].id),
    decreases j,
{
    if stuck.contains(order[j].id) {
        assert(services.contains(order[j]));
        let i = choose|i: int| 0 <= i < services.len() && services[i] == order[j];
        assert(stuck.contains(services[i].id));
        let k = choose|k: int|
            0 <= k < services[i].dependencies.len() && stuck.contains(
                #[trigger] services[i].dependencies[k],
            );
        let p = choose|p: int| p <= j && is_ready_after(order, order[j], p);
        assert(has_service(order.take(p), order[j].dependencies[k]));
        let m = choose|m: int|
            0 <= m < p && (#[trigger] order.take(p)[m]).id == order[j].dependencies[k];
        lemma_ordered_not_stuck(services, order, stuck, m);
    }
}

/// Whether the service at the `k`-th of these places depends on the one at the
/// next place, after the last of which comes the first.
pub open spec fn depends_on_next(services: Seq<ServiceView>, places: Seq<int>, k: int) -> bool {
    let next = if k + 1 < places.len() { k + 1 } else { 0 };
    services[places[k]].dependencies.contains(services[places[next]].id)
}

/// Whether the services at these places depend on each other in a circle.
pub open spec fn is_cycle(services: Seq<ServiceView>, places: Seq<int>) -> bool {
    &&& places.len() > 0
    &&& forall|k: int| 0 <= k < places.len() ==> 0 <= #[trigger] places[k] < services.len()
    &&& forall|k: int| 0 <= k < places.len() ==> #[trigger] depends_on_next(services, places, k)
}

/// A cycle of dependencies makes no graph, nor does a dependency named twice.
pub proof fn law_cycles_make_no_graph(services: Seq<ServiceView>, places: Seq<int>, i: int)
    requires
        is_cycle(services, places) || (0 <= i < services.len()
            && !services[i].dependencies.no_duplicates()),
    ensures
        !makes_graph(services),
{
    if makes_graph(services) {
        lemma_sound_ids_unique(services);
        if is_cycle(services, places) {
            lemma_cycle_deadlock(services, places);
        } else {
            lemma_repeat_deadlock(services, i);
        }
    }
}

/// Whether some dependency is named twice.
pub open spec fn has_repeated_dependency(services: Seq<ServiceView>) -> bool {
    exists|i: int|
        0 <= i < services.len() && !(#[trigger] services[i]).dependencies.no_duplicates()
}

/// Services of which every dependency is known wait for each other exactly when
/// some of them depend on each other in a circle, or a dependency is named twice.
pub proof fn law_deadlocks_are_cycles(services: Seq<ServiceView>)
    requires
        has_sound_ids(services),
        all_dependencies_known(services),
    ensures
        has_deadlock(services) <==> has_repeated_dependency(services) || exists|places: Seq<int>|
            is_cycle(services, places),
{
    lemma_sound_ids_unique(services);
    if has_repeated_dependency(services) {
        let i = choose|i: int|
            0 <= i < services.len() && !(#[trigger] services[i]).dependencies.no_duplicates();
        lemma_repeat_deadlock(services, i);
    } else if has_deadlock(services) {
        let stuck = choose|stuck: Set<Seq<char>>| is_deadlock(services, stuck);
        let places = lemma_deadlock_cycle(services, stuck);
        assert(is_cycle(services, places));
    }
    if exists|places: Seq<int>| is_cycle(services, places) {
        let places = choose|places: Seq<int>| is_cycle(services, places);
        lemma_cycle_deadlock(services, places);
    }
}

/// Services that wait for each other, and name no dependency twice, depend on each
/// other in a circle.
proof fn lemma_deadlock_cycle(services: Seq<ServiceView>, stuck: Set<Seq<char>>) -> (places: Seq<int>)
    requires
        all_dependencies_known(services),
        is_deadlock(services, stuck),
        !has_repeated_dependency(services),
    ensures
        is_cycle(services, places),
{
    let first = choose|i: int|
        0 <= i < services.len() && stuck.contains((#[trigger] services[i]).id);
    let path = walk(services, stuck, first, services.len());
    lemma_walk(services, stuck, first, services.len());
    let (a, b) = lemma_walk_returns(path, services.len() as int);
    let places = path.subrange(a, b);
    assert forall|k: int| 0 <= k < places.len() implies 0 <= #[trigger] places[k]
        < services.len() by {
        assert(places[k] == path[a + k]);
    }
    assert forall|k: int| 0 <= k < places.len() implies #[trigger] depends_on_next(
        services,
        places,
        k,
    ) by {
        assert(places[k] == path[a + k]);
        assert(waits_for(services, stuck, path[a + k], path[a + k + 1]));
        if k + 1 < places.len() {
            assert(places[k + 1] == path[a + k + 1]);
        } else {
            assert(places[0] == path[a]);
        }
    }
    places
}

/// Whether the service at `i` depends on the stuck one at `j`.
spec fn waits_for(services: Seq<ServiceView>, stuck: Set<Seq<char>>, i: int, j: int) -> bool {
    &&& 0 <= j < services.len()
    &&& stuck.contains(services[j].id)
    &&& services[i].dependencies.contains(services[j].id)
}

/// The path of `steps` steps from the service at `i`, each to a stuck one that it
/// waits for.
spec fn walk(services: Seq<ServiceView>, stuck: Set<Seq<char>>, i: int, steps: nat) -> Seq<int>
    decreases steps,
{
    if steps == 0 {
        seq![i]
    } else {
        let path = walk(services, stuck, i, (steps - 1) as nat);
        path.push(choose|j: int| waits_for(services, stuck, path.last(), j))
    }
}

proof fn lemma_walk(services: Seq<ServiceView>, stuck: Set<Seq<char>>, i: int, steps: nat)
    requires
        all_dependencies_known(services),
        is_deadlock(services, stuck),
        !has_repeated_dependency(services),
        0 <= i < services.len(),
        stuck.contains(services[i].id),
    ensures
        ({
            let path = walk(services, stuck, i, steps);
            &&& path.len() == steps + 1
            &&& forall|k: int|
                0 <= k < path.len() ==> 0 <= #[trigger] path[k] < services.len() && stuck.contains(
                    services[path[k]].id,
                )
            &&& forall|k: int, m: int|
                #![trigger path[k], path[m]]
                0 <= k && m == k + 1 && m < path.len() ==> waits_for(
                    services,
                    stuck,
                    path[k],
                    path[m],
                )
        }),
    decreases steps,
{
    if steps > 0 {
        let path = walk(services, stuck, i, (steps - 1) as nat);
        lemma_walk(services, stuck, i, (steps - 1) as nat);
        let last = path.last();
        assert(services[last].dependencies.no_duplicates());
        let k = choose|k: int|
            0 <= k < services[last].dependencies.len() && stuck.contains(
                #[trigger] services[last].dependencies[k],
            );
        assert(has_known_dependencies(services, services[last]));
        assert(has_service(services, services[last].dependencies[k]));
        let j = choose|j: int|
            0 <= j < services.len() && (#[trigger] services[j]).id == services[last].dependencies[k];
        assert(waits_for(services, stuck, last, j));
    }
}

/// A path longer than the places that there are returns to one of them.
proof fn lemma_walk_returns(path: Seq<int>, n: int) -> (places: (int, int))
    requires
        path.len() > n >= 0,
        forall|k: int| 0 <= k < path.len() ==> 0 <= #[trigger] path[k] < n,
    ensures
        0 <= places.0 < places.1 < path.len(),
        path[places.0] == path[places.1],
{
    if path.no_duplicates() {
        let range = vstd::set_lib::set_int_range(0, n);
        vstd::set_lib::lemma_int_range(0, n);
        path.unique_seq_to_set();
        assert(path.to_set().subset_of(range)) by {
            assert forall|x: int| path.to_set().contains(x) implies range.contains(x) by {
                assert(path.contains(x));
            }
        }
        vstd::set_lib::lemma_len_subset(path.to_set(), range);
    }
    let (a, b) = choose|a: int, b: int|
        0 <= a < path.len() && 0 <= b < path.len() && a != b && path[a] == path[b];
    if a < b {
        (a, b)
    } else {
        (b, a)
    }
}

/// Sound identifiers are used once.
proof fn lemma_sound_ids_unique(services: Seq<ServiceView>)
    requires
        has_sound_ids(services),
    ensures
        unique_ids(services),
{
    assert forall|a: int, b: int| 0 <= a < b < services.len() implies (#[trigger] services[a]).id
        != (#[trigger] services[b]).id by {
        assert(!has_id_fault(services, b));
        assert(services.take(b)[a] == services[a]);
    }
}

proof fn lemma_repeat_deadlock(services: Seq<ServiceView>, i: int)
    requires
        unique_ids(services),
        0 <= i < services.len(),
        !services[i].dependencies.no_duplicates(),
    ensures
        has_deadlock(services),
{
    let stuck = set![services[i].id];
    assert(stuck.contains(services[i].id));
    assert(is_deadlock(services, stuck));
}

proof fn lemma_cycle_deadlock(services: Seq<ServiceView>, places: Seq<int>)
    requires
        unique_ids(services),
        is_cycle(services, places),
    ensures
        has_deadlock(services),
{
    let stuck = Set::new(
        |id: Seq<char>|
            exists|k: int| 0 <= k < places.len() && services[#[trigger] places[k]].id == id,
    );
    assert(stuck.contains(services[places[0]].id));
    assert forall|j: int|
        0 <= j < services.len() && stuck.contains((#[trigger] services[j]).id) implies exists|m: int|
        0 <= m < services[j].dependencies.len() && stuck.contains(
            #[trigger] services[j].dependencies[m],
        ) by {
        let k = choose|k: int|
            0 <= k < places.len() && services[#[trigger] places[k]].id == services[j].id;
        assert(places[k] == j);
        assert(depends_on_next(services, places, k));
        let next = places[if k + 1 < places.len() { k + 1 } else { 0 }];
        let m = choose|m: int|
            0 <= m < services[j].dependencies.len() && services[j].dependencies[m]
                == services[next].id;
        assert(stuck.contains(services[j].dependencies[m]));
    }
    assert(is_deadlock(services, stuck));
}

/// Services have one start order.
pub proof fn law_start_order_is_unique(
    services: Seq<ServiceView>,
    a: Seq<ServiceView>,
    b: Seq<ServiceView>,
)
    requires
        is_start_order(services, a),
        is_start_order(services, b),
    ensures
        a == b,
{
    assert forall|n: int| 0 <= n < a.len() implies a[n] == b[n] by {
        lemma_same_start(services, a, b, n + 1);
        assert(a.take(n + 1)[n] == b.take(n + 1)[n]);
    }
    assert(a =~= b);
}

proof fn lemma_same_start(
    services: Seq<ServiceView>,
    a: Seq<ServiceView>,
    b: Seq<ServiceView>,
    n: int,
)
    requires
        is_start_order(services, a),
        is_start_order(services, b),
        0 <= n <= a.len(),
    ensures
        a.take(n) == b.take(n),
    decreases n,
{
    if n > 0 {
        let m = n - 1;
        lemma_same_start(services, a, b, m);
        let x = a[m];
        let y = b[m];
        if x != y {
            let i = lemma_later_in(services, a, b, m);
            let j = lemma_later_in(services, b, a, m);
            let p = choose|p: int| p <= m && is_ready_after(a, a[m], p);
            let q = choose|q: int| q <= m && is_ready_after(b, b[m], q);
            lemma_ready_shared(a, b, m, x, p);
            lemma_ready_shared(b, a, m, y, q);
            assert(is_ready_after(b, b[i], p));
            assert(is_ready_after(a, a[j], q));
            text::lemma_precedes_asymmetric(x.id, y.id);
        }
        assert(a.take(n) =~= a.take(m).push(x));
        assert(b.take(n) =~= b.take(m).push(y));
    }
}

/// Two orders that start alike make a service ready alike.
proof fn lemma_ready_shared(
    a: Seq<ServiceView>,
    b: Seq<ServiceView>,
    m: int,
    service: ServiceView,
    p: int,
)
    requires
        0 <= m <= a.len(),
        m <= b.len(),
        a.take(m) == b.take(m),
        p <= m,
        is_ready_after(a, service, p),
    ensures
        is_ready_after(b, service, p),
{
    assert(a.take(p) =~= a.take(m).take(p));
    assert(b.take(p) =~= b.take(m).take(p));
    if p > 0 {
        assert(a.take(p)[p - 1] == b.take(p)[p - 1]);
    }
}

/// What comes next in one order comes next or later in the other.
proof fn lemma_later_in(
    services: Seq<ServiceView>,
    a: Seq<ServiceView>,
    b: Seq<ServiceView>,
    m: int,
) -> (i: int)
    requires
        rearranges(services, a),
        rearranges(services, b),
        0 <= m < a.len(),
        a.take(m) == b.take(m),
        a[m] != b[m],
    ensures
        m < i < b.len(),
        b[i] == a[m],
{
    assert(services.contains(a[m]));
    let w = choose|w: int| 0 <= w < services.len() && services[w] == a[m];
    assert(b.contains(services[w]));
    let i = choose|i: int| 0 <= i < b.len() && b[i] == a[m];
    if i < m {
        assert(b.take(m)[i] == a.take(m)[i]);
        assert(a[i].id == a[m].id);
    }
    i
}

/// The start order does not depend on how the services are listed.
pub proof fn law_start_order_ignores_listing(
    services: Seq<ServiceView>,
    others: Seq<ServiceView>,
    order: Seq<ServiceView>,
)
    requires
        rearranges(services, others),
        is_start_order(services, order),
    ensures
        is_start_order(others, order),
{
    assert forall|i: int| 0 <= i < others.len() implies order.contains(#[trigger] others[i]) by {
        assert(services.contains(others[i]));
        let w = choose|w: int| 0 <= w < services.len() && services[w] == others[i];
        assert(order.contains(services[w]));
    }
    assert forall|i: int| 0 <= i < order.len() implies others.contains(#[trigger] order[i]) by {
        assert(services.contains(order[i]));
        let w = choose|w: int| 0 <= w < services.len() && services[w] == order[i];
        assert(others.contains(services[w]));
    }
}

/// A service starts after each of its dependencies.
pub proof fn law_dependencies_start_first(
    services: Seq<ServiceView>,
    order: Seq<ServiceView>,
    i: int,
    j: int,
)
    requires
        is_start_order(services, order),
        0 <= i < order.len(),
        0 <= j < order.len(),
        order[i].dependencies.contains(order[j].id),
    ensures
        j < i,
{
    let k = choose|k: int|
        0 <= k < order[i].dependencies.len() && order[i].dependencies[k] == order[j].id;
    let p = choose|p: int| p <= i && is_ready_after(order, order[i], p);
    assert(has_service(order.take(p), order[i].dependencies[k]));
    let m = choose|m: int| 0 <= m < p && (#[trigger] order.take(p)[m]).id == order[j].id;
    assert(order[m].id == order[j].id);
    assert(m == j);
}

/// A service stops before each of its dependencies.
pub proof fn law_dependents_stop_first(
    services: Seq<ServiceView>,
    order: Seq<ServiceView>,
    i: int,
    j: int,
)
    requires
        is_start_order(services, order),
        0 <= i < order.len(),
        0 <= j < order.len(),
        order.reverse()[i].dependencies.contains(order.reverse()[j].id),
    ensures
        i < j,
{
    law_dependencies_start_first(services, order, order.len() - 1 - i, order.len() - 1 - j);
}

/// The services of the control plane as they are listed.
pub open spec fn control_plane_services() -> Seq<ServiceView> {
    seq![
        ServiceView { id: "ingress"@, dependencies: seq![] },
        ServiceView { id: "policy"@, dependencies: seq!["ingress"@] },
        ServiceView { id: "workers"@, dependencies: seq!["policy"@] },
        ServiceView { id: "projection"@, dependencies: seq!["workers"@] },
        ServiceView { id: "telemetry"@, dependencies: seq!["ingress"@] },
    ]
}

/// The services of the control plane in their start order.
pub open spec fn control_plane_order() -> Seq<ServiceView> {
    seq![
        ServiceView { id: "ingress"@, dependencies: seq![] },
        ServiceView { id: "policy"@, dependencies: seq!["ingress"@] },
        ServiceView { id: "telemetry"@, dependencies: seq!["ingress"@] },
        ServiceView { id: "workers"@, dependencies: seq!["policy"@] },
        ServiceView { id: "projection"@, dependencies: seq!["workers"@] },
    ]
}

proof fn lemma_control_plane()
    ensures
        makes_graph(control_plane_services()),
        is_start_order(control_plane_services(), control_plane_order()),
{
    let services = control_plane_services();
    let order = control_plane_order();
    reveal_strlit("ingress");
    reveal_strlit("policy");
    reveal_strlit("workers");
    reveal_strlit("projection");
    reveal_strlit("telemetry");
    assert("ingress"@[0] == 'i' && "policy"@[0] == 'p' && "workers"@[0] == 'w' && "projection"@[0]
        == 'p' && "telemetry"@[0] == 't');
    assert("ingress"@ != "policy"@ && "ingress"@ != "workers"@ && "ingress"@ != "projection"@
        && "ingress"@ != "telemetry"@ && "policy"@ != "workers"@ && "policy"@ != "projection"@
        && "policy"@ != "telemetry"@ && "workers"@ != "projection"@ && "workers"@ != "telemetry"@
        && "projection"@ != "telemetry"@) by {
        assert("policy"@.len() != "projection"@.len());
    }
    assert(has_sound_ids(services)) by {
        assert forall|i: int| 0 <= i < services.len() implies !#[trigger] has_id_fault(
            services,
            i,
        ) by {
            assert(!is_white_space(services[i].id[0]));
            if has_service(services.take(i), services[i].id) {
                let j = choose|j: int|
                    0 <= j < i && (#[trigger] services.take(i)[j]).id == services[i].id;
                assert(services[j].id == services[i].id);
            }
        }
    }
    assert(all_dependencies_known(services)) by {
        assert(services[0].id == "ingress"@ && services[1].id == "policy"@ && services[2].id
            == "workers"@);
        assert(has_service(services, "ingress"@) && has_service(services, "policy"@) && has_service(
            services,
            "workers"@,
        ));
    }
    assert(rearranges(services, order)) by {
        assert(order[0] == services[0] && order[1] == services[1] && order[2] == services[4]
            && order[3] == services[2] && order[4] == services[3]);
        assert forall|i: int| 0 <= i < services.len() implies order.contains(
            #[trigger] services[i],
        ) by {
            let j = if i == 2 { 3int } else if i == 3 { 4int } else if i == 4 { 2int } else { i };
            assert(order[j] == services[i]);
        }
        assert forall|i: int| 0 <= i < order.len() implies services.contains(#[trigger] order[i]) by {
            let j = if i == 2 { 4int } else if i == 3 { 2int } else if i == 4 { 3int } else { i };
            assert(services[j] == order[i]);
        }
    }
    let ready = seq![0int, 1, 1, 2, 4];
    assert forall|i: int| 0 <= i < 5 implies #[trigger] is_ready_after(order, order[i], ready[i]) by {
        if i > 0 {
            assert(order.take(ready[i])[ready[i] - 1].id == order[i].dependencies[0]);
        }
    }
    assert forall|i: int| 0 <= i < order.len() implies (
    #[trigger] order[i]).dependencies.no_duplicates() && exists|p: int|
        p <= i && is_ready_after(order, order[i], p) by {
        assert(is_ready_after(order, order[i], ready[i]));
    }
    assert forall|i: int, j: int, p: int, q: int|
        #![trigger is_ready_after(order, order[i], p), is_ready_after(order, order[j], q)]
        0 <= i < j < order.len() && is_ready_after(order, order[i], p) && is_ready_after(
            order,
            order[j],
            q,
        ) implies p < q || (p == q && text::precedes(order[i].id, order[j].id)) by {
        lemma_ready_once(order, order[i], p, ready[i]);
        lemma_ready_once(order, order[j], q, ready[j]);
    }
    lemma_order_has_no_deadlock(services, order);
}

/// Services in their start order.
#[derive(Debug)]
pub struct ServiceGraph {
    ordered: Vec<ServiceSpec>,
}

impl View for ServiceGraph {
    type V = Seq<ServiceView>;

    closed spec fn view(&self) -> Seq<ServiceView> {
        service_views(self.ordered@)
    }
}

impl Clone for ServiceGraph {
    fn clone(&self) -> (copy: ServiceGraph)
        ensures
            copy@ == self@,
    {
        let mut ordered: Vec<ServiceSpec> = Vec::new();
        for i in 0..self.ordered.len()
            invariant
                service_views(ordered@) == self@.take(i as int),
        {
            let ghost before = ordered@;
            ordered.push(self.ordered[i].clone());
            assert(service_views(ordered@) =~= service_views(before).push(self@[i as int]));
            assert(self@.take(i + 1) =~= self@.take(i as int).push(self@[i as int]));
        }
        assert(self@.take(self@.len() as int) =~= self@);
        ServiceGraph { ordered }
    }
}

impl ServiceGraph {
    /// There is a service, no identifier is blank, and the services stand in their
    /// start order.
    pub open spec fn wf(&self) -> bool {
        &&& self@.len() > 0
        &&& forall|i: int| 0 <= i < self@.len() ==> !is_blank((#[trigger] self@[i]).id)
        &&& is_start_order(self@, self@)
    }

    /// The graph of some services, or why they make none.
    pub fn new(services: Vec<ServiceSpec>) -> (graph: CoreResult<ServiceGraph>)
        ensures
            match graph {
                Ok(graph) => {
                    &&& makes_graph(service_views(services@))
                    &&& is_start_order(service_views(services@), graph@)
                    &&& graph.wf()
                },
                Err(error) => {
                    &&& !makes_graph(service_views(services@))
                    &&& error@ matches ErrorView::InvalidServiceGraph(message)
                    &&& is_graph_fault(service_views(services@), message)
                },
            },
    {
        let ghost views = service_views(services@);
        if services.is_empty() {
            return Err(
                CoreError::InvalidServiceGraph("at least one service is required".to_owned()),
            );
        }
        let nodes = match sort_services(&services) {
            Ok(nodes) => nodes,
            Err(error) => {
                return Err(error);
            },
        };
        let ghost sorted = service_views(nodes@);
        match check_dependencies(Ghost(views), &nodes) {
            Ok(_) => {},
            Err(error) => {
                return Err(error);
            },
        }
        let places = start_places(&nodes);
        let ghost ready = choose|ready: Seq<int>|
            is_queue(sorted, places@, ready, places@.len() as int);
        if places.len() != nodes.len() {
            proof {
                assert forall|c: int|
                    #![trigger sorted[c]]
                    0 <= c < sorted.len() && !places@.contains(
                        c as usize,
                    ) implies started_dependencies(
                    picked(sorted, places@),
                    sorted[c],
                    places@.len(),
                ) < sorted[c].dependencies.len() by {
                    assert(sorted[c] == nodes@[c]@);
                }
                lemma_places_bounded(sorted, places@);
                lemma_left_out_deadlock(views, sorted, places@);
            }
            return Err(
                CoreError::InvalidServiceGraph("service dependencies contain a cycle".to_owned()),
            );
        }
        let mut ordered: Vec<ServiceSpec> = Vec::new();
        for j in 0..places.len()
            invariant
                sorted == service_views(nodes@),
                are_places(sorted, places@),
                service_views(ordered@) == picked(sorted, places@).take(j as int),
        {
            let place = places[j];
            assert(place < nodes.len());
            let ghost before = ordered@;
            let ghost order = picked(sorted, places@);
            ordered.push(nodes[place].clone());
            assert(service_views(ordered@) =~= service_views(before).push(order[j as int]));
            assert(order.take(j + 1) =~= order.take(j as int).push(order[j as int]));
        }
        let ghost order = picked(sorted, places@);
        let graph = ServiceGraph { ordered };
        proof {
            assert(order.take(places@.len() as int) =~= order);
            lemma_queue_is_start_order(views, sorted, places@, ready);
            lemma_order_has_no_deadlock(views, order);
            law_start_order_ignores_listing(views, order, order);
            assert(graph@ == order);
            assert forall|i: int| 0 <= i < order.len() implies !is_blank((#[trigger] order[i]).id) by {
                assert(views.contains(order[i]));
                let w = choose|w: int| 0 <= w < views.len() && views[w] == order[i];
                assert(!has_id_fault(views, w));
            }
        }
        Ok(graph)
    }

    /// The services of the control plane.
    pub fn control_plane() -> (graph: ServiceGraph)
        ensures
            graph@ == control_plane_order(),
            graph.wf(),
    {
        let mut services: Vec<ServiceSpec> = Vec::new();
        services.push(ServiceSpec::new("ingress", []));
        services.push(ServiceSpec::new("policy", ["ingress"]));
        services.push(ServiceSpec::new("workers", ["policy"]));
        services.push(ServiceSpec::new("projection", ["workers"]));
        services.push(ServiceSpec::new("telemetry", ["ingress"]));
        proof {
            let views = service_views(services@);
            let listed = control_plane_services();
            assert(views[0].dependencies =~= listed[0].dependencies);
            assert(views[1].dependencies =~= listed[1].dependencies);
            assert(views[2].dependencies =~= listed[2].dependencies);
            assert(views[3].dependencies =~= listed[3].dependencies);
            assert(views[4].dependencies =~= listed[4].dependencies);
            assert(views =~= listed);
            lemma_control_plane();
        }
        let graph = ServiceGraph::new(services).expect("built-in graph is valid");
        proof {
            law_start_order_is_unique(control_plane_services(), graph@, control_plane_order());
        }
        graph
    }

    /// The services in the order in which they start.
    pub fn start_order(&self) -> (services: &[ServiceSpec])
        ensures
            service_views(services@) == self@,
    {
        self.ordered.as_slice()
    }

    /// The services in the order in which they stop, which is the start order
    /// backwards.
    pub fn stop_order(&self) -> (services: Vec<&ServiceSpec>)
        ensures
            services@.map_values(|service: &ServiceSpec| service@) == self@.reverse(),
    {
        let mut services: Vec<&ServiceSpec> = Vec::new();
        let count = self.ordered.len();
        for i in 0..count
            invariant
                count == self.ordered.len(),
                services@.map_values(|service: &ServiceSpec| service@) == self@.reverse().take(
                    i as int,
                ),
        {
            let ghost before = services@.map_values(|service: &ServiceSpec| service@);
            let ghost backwards = self@.reverse();
            services.push(&self.ordered[count - 1 - i]);
            assert(services@.map_values(|service: &ServiceSpec| service@) =~= before.push(
                backwards[i as int],
            ));
            assert(backwards.take(i + 1) =~= backwards.take(i as int).push(backwards[i as int]));
        }
        assert(self@.reverse().take(count as int) =~= self@.reverse());
        services
    }
}

} // verus!
