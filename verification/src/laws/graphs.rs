//! What holds of service graphs: which there are, what is said of the others, and
//! in what order services start.

use crate::service;
use crate::service::ServiceView;
use crate::text;
use vstd::prelude::*;

verus! {

/// Blank is what has white space alone: a text is blank if both its parts are, the
/// text without characters is, and one character is if it is white space by its
/// code point.
pub proof fn law_blank_texts(a: Seq<char>, b: Seq<char>, c: char)
    ensures
        service::is_blank(a + b) <==> service::is_blank(a) && service::is_blank(b),
        service::is_blank(seq![]),
        service::is_blank(seq![c]) <==> {
            let u = c as int;
            ||| 9 <= u <= 13
            ||| u == 32
            ||| u == 133
            ||| u == 160
            ||| u == 5760
            ||| 8192 <= u <= 8202
            ||| u == 8232
            ||| u == 8233
            ||| u == 8239
            ||| u == 8287
            ||| u == 12288
        },
{
    let both = a + b;
    if service::is_blank(both) {
        assert forall|i: int| 0 <= i < a.len() implies service::is_white_space(#[trigger] a[i]) by {
            assert(both[i] == a[i]);
        }
        assert forall|i: int| 0 <= i < b.len() implies service::is_white_space(#[trigger] b[i]) by {
            assert(both[a.len() + i] == b[i]);
        }
    }
    assert(seq![c][0] == c);
}

/// Services make a graph exactly if there are any, each has an identifier that is
/// not blank and that no other has, each dependency is the identifier of one of
/// them and is named once by the service, and they do not depend on each other in
/// a circle.
pub proof fn law_what_makes_a_graph(services: Seq<ServiceView>)
    ensures
        service::makes_graph(services) <==> {
            &&& services.len() > 0
            &&& forall|i: int|
                0 <= i < services.len() ==> !service::is_blank((#[trigger] services[i]).id)
            &&& forall|i: int, j: int|
                0 <= i < j < services.len() ==> (#[trigger] services[i]).id != (
                #[trigger] services[j]).id
            &&& forall|i: int, k: int|
                #![trigger services[i].dependencies[k]]
                0 <= i < services.len() && 0 <= k < services[i].dependencies.len() ==> exists|
                    j: int,
                |
                    0 <= j < services.len() && (#[trigger] services[j]).id
                        == services[i].dependencies[k]
            &&& forall|i: int|
                0 <= i < services.len() ==> (#[trigger] services[i]).dependencies.no_duplicates()
            &&& !exists|places: Seq<int>| service::is_cycle(services, places)
        },
{
    let ids_there = forall|i: int|
        0 <= i < services.len() ==> !service::is_blank((#[trigger] services[i]).id);
    let ids_unique = forall|i: int, j: int|
        0 <= i < j < services.len() ==> (#[trigger] services[i]).id != (#[trigger] services[j]).id;
    let known = forall|i: int, k: int|
        #![trigger services[i].dependencies[k]]
        0 <= i < services.len() && 0 <= k < services[i].dependencies.len() ==> exists|j: int|
            0 <= j < services.len() && (#[trigger] services[j]).id == services[i].dependencies[k];
    lemma_sound_ids(services);
    assert(known == service::all_dependencies_known(services)) by {
        if known {
            assert forall|i: int| 0 <= i < services.len() implies service::has_known_dependencies(
                services,
                #[trigger] services[i],
            ) by {
                assert forall|k: int|
                    0 <= k < services[i].dependencies.len() implies service::has_service(
                    services,
                    #[trigger] services[i].dependencies[k],
                ) by {}
            }
        }
        if service::all_dependencies_known(services) {
            assert forall|i: int, k: int|
                #![trigger services[i].dependencies[k]]
                0 <= i < services.len() && 0 <= k < services[i].dependencies.len() implies exists|
                j: int,
            |
                0 <= j < services.len() && (#[trigger] services[j]).id
                    == services[i].dependencies[k] by {
                assert(service::has_known_dependencies(services, services[i]));
                assert(service::has_service(services, services[i].dependencies[k]));
            }
        }
    }
    if service::has_sound_ids(services) && service::all_dependencies_known(services) {
        service::law_deadlocks_are_cycles(services);
    }
}

/// Sound identifiers are there and differ.
proof fn lemma_sound_ids(services: Seq<ServiceView>)
    ensures
        service::has_sound_ids(services) <==> {
            &&& forall|i: int|
                0 <= i < services.len() ==> !service::is_blank((#[trigger] services[i]).id)
            &&& forall|i: int, j: int|
                0 <= i < j < services.len() ==> (#[trigger] services[i]).id != (
                #[trigger] services[j]).id
        },
{
    if service::has_sound_ids(services) {
        assert forall|i: int| 0 <= i < services.len() implies !service::is_blank(
            (#[trigger] services[i]).id,
        ) by {
            assert(!service::has_id_fault(services, i));
        }
        assert forall|i: int, j: int| 0 <= i < j < services.len() implies (
        #[trigger] services[i]).id != (#[trigger] services[j]).id by {
            assert(!service::has_id_fault(services, j));
            assert(services.take(j)[i] == services[i]);
        }
    } else {
        let b = choose|b: int|
            0 <= b < services.len() && #[trigger] service::has_id_fault(services, b);
        if !service::is_blank(services[b].id) {
            let a = choose|a: int|
                0 <= a < b && (#[trigger] services.take(b)[a]).id == services[b].id;
            assert(services[a].id == services[b].id);
        }
    }
}

/// What is said where services make no graph. Without services that is said. The
/// first service whose identifier is blank or was used before decides next, by
/// which of the two it is. After that it is the service of the least identifier
/// among those with a dependency that is not there, with the first such
/// dependency; and where all are there, that they contain a cycle.
pub proof fn law_what_is_said_of_other_services(
    services: Seq<ServiceView>,
    message: Seq<char>,
    i: int,
    k: int,
)
    requires
        service::is_graph_fault(services, message),
    ensures
        services.len() == 0 ==> message == "at least one service is required"@,
        0 <= i < services.len() && service::is_blank(services[i].id) && (forall|j: int|
            0 <= j < i ==> !service::is_blank((#[trigger] services[j]).id)) && (forall|
            j: int,
            m: int,
        |
            0 <= j < m < i ==> (#[trigger] services[j]).id != (#[trigger] services[m]).id)
            ==> message == "service identifiers cannot be empty"@,
        0 <= k < i < services.len() && services[k].id == services[i].id && (forall|j: int|
            0 <= j <= i ==> !service::is_blank((#[trigger] services[j]).id)) && (forall|
            j: int,
            m: int,
        |
            0 <= j < m < i ==> (#[trigger] services[j]).id != (#[trigger] services[m]).id)
            ==> message == "service identifiers must be unique"@,
        service::has_sound_ids(services) && 0 <= i < services.len() && 0 <= k
            < services[i].dependencies.len() && !service::has_service(
            services,
            services[i].dependencies[k],
        ) && (forall|m: int|
            0 <= m < k ==> service::has_service(services, #[trigger] services[i].dependencies[m]))
            && (forall|j: int, m: int|
            #![trigger services[j].dependencies[m]]
            0 <= j < services.len() && 0 <= m < services[j].dependencies.len() && text::precedes(
                services[j].id,
                services[i].id,
            ) ==> service::has_service(services, services[j].dependencies[m])) ==> message
            == "service '"@ + services[i].id + "' depends on missing service '"@
            + services[i].dependencies[k] + "'"@,
        services.len() > 0 && service::has_sound_ids(services) && service::all_dependencies_known(
            services,
        ) ==> message == "service dependencies contain a cycle"@,
{
    if services.len() > 0 && !service::has_sound_ids(services) {
        let f = choose|f: int|
            #![trigger services[f]]
            service::is_first_id_fault(services, f) && message == if service::is_blank(
                services[f].id,
            ) {
                "service identifiers cannot be empty"@
            } else {
                "service identifiers must be unique"@
            };
        let clean_before = 0 <= i < services.len() && (forall|j: int|
            0 <= j < i ==> !service::is_blank((#[trigger] services[j]).id)) && (forall|
            j: int,
            m: int,
        |
            0 <= j < m < i ==> (#[trigger] services[j]).id != (#[trigger] services[m]).id);
        if clean_before {
            if f < i {
                assert(service::has_id_fault(services, f));
                if !service::is_blank(services[f].id) {
                    let a = choose|a: int|
                        0 <= a < f && (#[trigger] services.take(f)[a]).id == services[f].id;
                    assert(services[a].id == services[f].id);
                }
            }
            if service::is_blank(services[i].id) {
                assert(service::has_id_fault(services, i));
            }
            if 0 <= k < i && services[k].id == services[i].id {
                assert(services.take(i)[k].id == services[i].id);
                assert(service::has_id_fault(services, i));
            }
        }
    } else if services.len() > 0 {
        lemma_sound_ids(services);
        if !service::all_dependencies_known(services) {
            let (f, g) = choose|f: int, g: int|
                #![trigger services[f].dependencies[g]]
                service::is_reported_missing(services, f, g) && message == service::missing_text(
                    services[f].id,
                    services[f].dependencies[g],
                );
            let told = 0 <= i < services.len() && 0 <= k < services[i].dependencies.len()
                && !service::has_service(services, services[i].dependencies[k]) && (forall|m: int|
                0 <= m < k ==> service::has_service(
                    services,
                    #[trigger] services[i].dependencies[m],
                )) && (forall|j: int, m: int|
                #![trigger services[j].dependencies[m]]
                0 <= j < services.len() && 0 <= m < services[j].dependencies.len()
                    && text::precedes(services[j].id, services[i].id) ==> service::has_service(
                    services,
                    services[j].dependencies[m],
                ));
            if told {
                text::lemma_precedes_total(services[f].id, services[i].id);
                if text::precedes(services[i].id, services[f].id) {
                    assert(service::has_known_dependencies(services, services[i]));
                }
                assert(f == i);
                assert(g == k);
            }
        } else if 0 <= i < services.len() && 0 <= k < services[i].dependencies.len() {
            assert(service::has_known_dependencies(services, services[i]));
        }
        if 0 <= k < i < services.len() {
            assert(services[k].id != services[i].id);
        }
    }
}

/// The start order holds each service once, and no other.
pub proof fn law_every_service_starts_once(
    services: Seq<ServiceView>,
    order: Seq<ServiceView>,
    service: ServiceView,
)
    requires
        service::is_start_order(services, order),
    ensures
        order.len() == services.len(),
        services.contains(service) <==> order.contains(service),
        forall|i: int, j: int|
            0 <= i < j < order.len() ==> (#[trigger] order[i]).id != (#[trigger] order[j]).id,
{
    if services.contains(service) {
        let i = choose|i: int| 0 <= i < services.len() && services[i] == service;
        assert(order.contains(services[i]));
    }
    if order.contains(service) {
        let i = choose|i: int| 0 <= i < order.len() && order[i] == service;
        assert(services.contains(order[i]));
    }
}

/// A service starts before another whose dependencies are not all ready when its
/// own are: `d` is the place of a dependency of the later one, and all
/// dependencies of the earlier one stand before it.
pub proof fn law_ready_services_start_first(
    services: Seq<ServiceView>,
    order: Seq<ServiceView>,
    x: int,
    y: int,
    d: int,
)
    requires
        service::is_start_order(services, order),
        0 <= x < order.len(),
        0 <= y < order.len(),
        0 <= d < order.len(),
        order[y].dependencies.contains(order[d].id),
        forall|m: int|
            0 <= m < order.len() && order[x].dependencies.contains((#[trigger] order[m]).id) ==> m
                < d,
    ensures
        x < y,
{
    let p = choose|p: int| p <= x && service::is_ready_after(order, order[x], p);
    let q = choose|q: int| q <= y && service::is_ready_after(order, order[y], q);
    assert(p <= d) by {
        if p > 0 {
            assert(order[x].dependencies.contains(order[p - 1].id));
        }
    }
    assert(d < q) by {
        lemma_dependency_before(order, y, d, q);
    }
    assert(service::is_ready_after(order, order[x], p) && service::is_ready_after(
        order,
        order[y],
        q,
    ));
    if x == y {
        assert(d < d) by {
            assert(order[x].dependencies.contains(order[d].id));
        }
    }
}

/// Services that become ready together, with the same last dependency or none,
/// start in the order of their identifiers.
pub proof fn law_services_ready_together_start_by_identifier(
    services: Seq<ServiceView>,
    order: Seq<ServiceView>,
    x: int,
    y: int,
    d: int,
)
    requires
        service::is_start_order(services, order),
        0 <= x < order.len(),
        0 <= y < order.len(),
        text::precedes(order[x].id, order[y].id),
        forall|m: int|
            0 <= m < order.len() && order[x].dependencies.contains((#[trigger] order[m]).id) ==> m
                <= d,
        forall|m: int|
            0 <= m < order.len() && order[y].dependencies.contains((#[trigger] order[m]).id) ==> m
                <= d,
        d == -1 || 0 <= d < order.len() && order[x].dependencies.contains(order[d].id)
            && order[y].dependencies.contains(order[d].id),
    ensures
        x < y,
{
    let p = choose|p: int| p <= x && service::is_ready_after(order, order[x], p);
    let q = choose|q: int| q <= y && service::is_ready_after(order, order[y], q);
    assert(p == d + 1) by {
        if p > 0 {
            assert(order[x].dependencies.contains(order[p - 1].id));
        }
        if d >= 0 {
            lemma_dependency_before(order, x, d, p);
        }
    }
    assert(q == d + 1) by {
        if q > 0 {
            assert(order[y].dependencies.contains(order[q - 1].id));
        }
        if d >= 0 {
            lemma_dependency_before(order, y, d, q);
        }
    }
    assert(service::is_ready_after(order, order[x], p) && service::is_ready_after(
        order,
        order[y],
        q,
    ));
    text::lemma_precedes_asymmetric(order[x].id, order[y].id);
}

/// A dependency stands before the place at which its dependent becomes ready.
proof fn lemma_dependency_before(order: Seq<ServiceView>, y: int, d: int, q: int)
    requires
        service::unique_ids(order),
        0 <= y < order.len(),
        0 <= d < order.len(),
        order[y].dependencies.contains(order[d].id),
        service::is_ready_after(order, order[y], q),
    ensures
        d < q,
{
    let k = choose|k: int|
        0 <= k < order[y].dependencies.len() && order[y].dependencies[k] == order[d].id;
    assert(service::has_service(order.take(q), order[y].dependencies[k]));
    let m = choose|m: int| 0 <= m < q && (#[trigger] order.take(q)[m]).id == order[d].id;
    assert(order[m].id == order[d].id);
}

/// The control plane has five services: `ingress`, on which `policy` and
/// `telemetry` depend, `workers`, which depends on `policy`, and `projection`,
/// which depends on `workers`.
pub proof fn law_control_plane()
    ensures
        ({
            let order = service::control_plane_order();
            &&& order.len() == 5
            &&& order[0].id == "ingress"@ && order[0].dependencies.len() == 0
            &&& order[1].id == "policy"@ && order[1].dependencies == seq!["ingress"@]
            &&& order[2].id == "telemetry"@ && order[2].dependencies == seq!["ingress"@]
            &&& order[3].id == "workers"@ && order[3].dependencies == seq!["policy"@]
            &&& order[4].id == "projection"@ && order[4].dependencies == seq!["workers"@]
        }),
{
}

} // verus!
