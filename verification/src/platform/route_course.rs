//! What holds of host routes on macOS as a whole: what a report says, what an apply and a rollback
//! of a route run, and when the staged routes can be applied together.
use vstd::prelude::*;

use crate::command::CommandOutput;
use crate::connectivity::ends_with;
use crate::model::{RouteCandidateView, RouteChangeView, RouteObservation, RouteObservationView};
use crate::platform::route::{
    apply_awaits, apply_next, candidate_conflicts, installation, looked_up, next_hop,
    read_route_lines, removal, restoration, rollback_awaits, rollback_next, route_failure,
    same_route, staged_before, ApplyPhase, RollbackPhase, RouteActionView, RouteApplyView,
    RouteEvent, RoutePrivileges, RouteRollbackView,
};
use crate::text::{has_prefix, lines, split_first, trimmed};

verus! {

/// Routes lead the same way exactly if they go to the same destination through the same gateway,
/// interface and scope and agree on whether they are for a single host, static, through a gateway,
/// rejecting or dropping. No other flag matters.
pub proof fn law_routes_are_compared_by_what_matters(
    a: RouteObservationView,
    b: RouteObservationView,
    flag: Seq<char>,
)
    ensures
        same_route(a, b) ==> a.destination == b.destination && a.gateway == b.gateway
            && a.interface == b.interface && a.ifscope == b.ifscope,
        same_route(a, b) && (flag == "HOST"@ || flag == "STATIC"@ || flag == "GATEWAY"@ || flag
            == "REJECT"@ || flag == "BLACKHOLE"@) ==> (a.flags.contains(flag)
            <==> b.flags.contains(flag)),
        a.destination == b.destination && a.gateway == b.gateway && a.interface == b.interface
            && a.ifscope == b.ifscope && (forall|f: Seq<char>|
            f == "HOST"@ || f == "STATIC"@ || f == "GATEWAY"@ || f == "REJECT"@ || f
                == "BLACKHOLE"@ ==> (#[trigger] a.flags.contains(f) <==> b.flags.contains(f)))
            ==> same_route(a, b),
{
    if forall|f: Seq<char>|
        f == "HOST"@ || f == "STATIC"@ || f == "GATEWAY"@ || f == "REJECT"@ || f == "BLACKHOLE"@
            ==> (#[trigger] a.flags.contains(f) <==> b.flags.contains(f)) {
        assert(a.flags.contains("HOST"@) == b.flags.contains("HOST"@));
        assert(a.flags.contains("STATIC"@) == b.flags.contains("STATIC"@));
        assert(a.flags.contains("GATEWAY"@) == b.flags.contains("GATEWAY"@));
        assert(a.flags.contains("REJECT"@) == b.flags.contains("REJECT"@));
        assert(a.flags.contains("BLACKHOLE"@) == b.flags.contains("BLACKHOLE"@));
    }
}

/// Whether a line of the tool's report names a property.
pub open spec fn line_names(line: Seq<char>, name: Seq<char>) -> bool {
    split_first(trimmed(line), ':') matches Some((key, value)) && trimmed(key) == name
}

/// What a line of the tool's report says of the property that it names.
pub open spec fn line_value(line: Seq<char>) -> Seq<char> {
    trimmed(split_first(trimmed(line), ':')->Some_0.1)
}

/// Whether a line is the last one of a report that names a property.
pub open spec fn is_last_named(all: Seq<Seq<char>>, i: int, name: Seq<char>) -> bool {
    &&& 0 <= i < all.len()
    &&& line_names(all[i], name)
    &&& forall|j: int| i < j < all.len() ==> !line_names(#[trigger] all[j], name)
}

/// Whether no line of a report names a property.
pub open spec fn is_unnamed(all: Seq<Seq<char>>, name: Seq<char>) -> bool {
    forall|j: int| 0 <= j < all.len() ==> !line_names(#[trigger] all[j], name)
}

proof fn lemma_property_names()
    ensures
        "destination"@ != "gateway"@,
        "destination"@ != "interface"@,
        "destination"@ != "ifscope"@,
        "destination"@ != "flags"@,
        "gateway"@ != "interface"@,
        "gateway"@ != "ifscope"@,
        "gateway"@ != "flags"@,
        "interface"@ != "ifscope"@,
        "interface"@ != "flags"@,
        "ifscope"@ != "flags"@,
{
    reveal_strlit("destination");
    reveal_strlit("gateway");
    reveal_strlit("interface");
    reveal_strlit("ifscope");
    reveal_strlit("flags");
    assert("destination"@.len() == 11 && "gateway"@.len() == 7 && "interface"@.len() == 9
        && "ifscope"@.len() == 7 && "flags"@.len() == 5);
    assert("gateway"@[0] != "ifscope"@[0]);
}

/// A report is read property by property: each is what the last line that names it says, and one
/// that no line names stays as it was asked for, or is not there.
pub proof fn law_reports_give_what_they_name(
    start: RouteObservationView,
    all: Seq<Seq<char>>,
    i: int,
)
    ensures
        ({
            let route = read_route_lines(start, all);
            &&& is_last_named(all, i, "destination"@) ==> route.destination == line_value(all[i])
            &&& is_last_named(all, i, "gateway"@) ==> route.gateway == Some(line_value(all[i]))
            &&& is_last_named(all, i, "interface"@) ==> route.interface == Some(line_value(all[i]))
            &&& is_last_named(all, i, "ifscope"@) ==> route.ifscope == Some(line_value(all[i]))
            &&& is_unnamed(all, "destination"@) ==> route.destination == start.destination
            &&& is_unnamed(all, "gateway"@) ==> route.gateway == start.gateway
            &&& is_unnamed(all, "interface"@) ==> route.interface == start.interface
            &&& is_unnamed(all, "ifscope"@) ==> route.ifscope == start.ifscope
            &&& is_unnamed(all, "flags"@) ==> route.flags == start.flags
        }),
    decreases all.len(),
{
    lemma_property_names();
    if all.len() > 0 {
        let shorter = all.drop_last();
        law_reports_give_what_they_name(start, shorter, i);
        assert forall|name: Seq<char>| #[trigger] is_unnamed(all, name) implies is_unnamed(
            shorter,
            name,
        ) && !line_names(all.last(), name) by {
            assert(!line_names(all[all.len() - 1], name));
            assert forall|j: int| 0 <= j < shorter.len() implies !line_names(
                #[trigger] shorter[j],
                name,
            ) by {
                assert(!line_names(all[j], name));
            }
        }
        assert forall|name: Seq<char>|
            #[trigger] is_last_named(all, i, name) && i < shorter.len() implies is_last_named(
            shorter,
            i,
            name,
        ) && !line_names(all.last(), name) by {
            assert(!line_names(all[all.len() - 1], name));
            assert forall|j: int| i < j < shorter.len() implies !line_names(
                #[trigger] shorter[j],
                name,
            ) by {
                assert(!line_names(all[j], name));
            }
        }
    }
}

/// Whether a command removes the host route to a destination: it says so, names the family of a
/// version 6 address, the scope of the route if it has one, and the destination last.
pub open spec fn removes(
    arguments: Seq<Seq<char>>,
    v6: bool,
    ifscope: Option<Seq<char>>,
    destination: Seq<char>,
) -> bool {
    let n = arguments.len();
    let f = if v6 {
        1int
    } else {
        0int
    };
    &&& n == 4 + f + if ifscope is Some {
        2int
    } else {
        0int
    }
    &&& arguments[0] == "-n"@
    &&& arguments[1] == "delete"@
    &&& v6 ==> arguments[2] == "-inet6"@
    &&& arguments[2 + f] == "-host"@
    &&& ifscope matches Some(name) ==> arguments[3 + f] == "-ifscope"@ && arguments[4 + f] == name
    &&& arguments[n - 1] == destination
}

/// Whether a command adds a host route to a destination: it says so, names the family of a version
/// 6 address, and then the scope, the destination and where the route leads.
pub open spec fn adds(
    arguments: Seq<Seq<char>>,
    v6: bool,
    ifscope: Option<Seq<char>>,
    destination: Seq<char>,
    hop: Seq<Seq<char>>,
) -> bool {
    let f = if v6 {
        1int
    } else {
        0int
    };
    let s = if ifscope is Some {
        2int
    } else {
        0int
    };
    &&& arguments.len() == 4 + f + s + hop.len()
    &&& arguments[0] == "-n"@
    &&& arguments[1] == "add"@
    &&& v6 ==> arguments[2] == "-inet6"@
    &&& arguments[2 + f] == "-host"@
    &&& ifscope matches Some(name) ==> arguments[3 + f] == "-ifscope"@ && arguments[4 + f] == name
    &&& arguments[3 + f + s] == destination
    &&& forall|i: int|
        0 <= i < hop.len() ==> #[trigger] arguments[4 + f + s + i] == hop[i]
}

/// Where a recorded route leads: to its gateway, or to its interface where it has no gateway or one
/// that only stands for a link.
pub open spec fn leads_through(route: RouteObservationView, hop: Seq<Seq<char>>) -> bool {
    if route.gateway is Some && (route.interface is None || !has_prefix(
        route.gateway->Some_0,
        "link#"@,
    )) {
        hop.len() == 1 && hop[0] == route.gateway->Some_0
    } else if route.interface is Some {
        hop.len() == 2 && hop[0] == "-interface"@ && hop[1] == route.interface->Some_0
    } else {
        hop.len() == 0
    }
}

/// Whether a command puts a recorded route back: it names all that is recorded of it.
pub open spec fn puts_back(
    route: RouteObservationView,
    v6: bool,
    arguments: Seq<Seq<char>>,
) -> bool {
    exists|hop: Seq<Seq<char>>|
        leads_through(route, hop) && #[trigger] adds(
            arguments,
            v6,
            route.ifscope,
            route.destination,
            hop,
        )
}

/// Whether a command removes the live route, that being a host route through the interface of the
/// candidate and not the recorded one.
pub open spec fn takes_candidate_away(
    change: RouteChangeView,
    event: RouteEvent,
    arguments: Seq<Seq<char>>,
) -> bool {
    event matches RouteEvent::Observed { route: Ok(current), v6 } && {
        &&& removes(arguments, v6, current@.ifscope, current@.destination)
        &&& current@.flags.contains("HOST"@)
        &&& current@.interface == Some(change.interface)
        &&& !same_route(current@, change.original)
    }
}

/// Whether a command removes the live route, that being a static host route and the recorded one.
pub open spec fn takes_original_away(
    change: RouteChangeView,
    event: RouteEvent,
    arguments: Seq<Seq<char>>,
) -> bool {
    event matches RouteEvent::Observed { route: Ok(current), v6 } && {
        &&& removes(arguments, v6, current@.ifscope, current@.destination)
        &&& current@.flags.contains("HOST"@)
        &&& current@.flags.contains("STATIC"@)
        &&& same_route(current@, change.original)
    }
}

/// Whether nothing is in the way of a candidate: the recorded route is live and no host route, or
/// it was just removed.
pub open spec fn is_clear_for_candidate(job: RouteApplyView, event: RouteEvent) -> bool {
    ||| event matches RouteEvent::Observed { route: Ok(current), .. } && same_route(
        current@,
        job.change.original,
    ) && !current@.flags.contains("HOST"@)
    ||| event matches RouteEvent::Ran { result } && result is Ok && job.phase is Removal
}

/// The commands that change the routing table name what they are about: a removal the route that is
/// removed, an installation the destination, the interface and the gateway of the candidate, and a
/// restoration all that is recorded of the original route.
pub proof fn law_route_commands_name_their_routes(
    route: RouteObservationView,
    change: RouteChangeView,
    v6: bool,
)
    ensures
        removes(removal(route, v6), v6, route.ifscope, route.destination),
        change.gateway matches Some(gateway) ==> adds(
            installation(change, v6),
            v6,
            Some(change.interface),
            change.destination,
            seq![gateway],
        ),
        change.gateway is None ==> adds(
            installation(change, v6),
            v6,
            None,
            change.destination,
            seq!["-interface"@, change.interface],
        ),
        puts_back(route, v6, restoration(route, v6)),
{
    let hop = next_hop(route);
    assert(leads_through(route, hop));
    assert(adds(restoration(route, v6), v6, route.ifscope, route.destination, hop));
}

/// A rollback of a route runs two commands at most. It removes a route only if the live one is a
/// host route through the interface of the candidate and not the recorded one, and names that live
/// route. It adds one only after that succeeded, only if the recorded route was itself a static
/// host route, and then it names the recorded route. Where it was not, nothing is ever added.
pub proof fn law_route_rollbacks_add_only_what_was_there(job: RouteRollbackView, event: RouteEvent)
    requires
        rollback_awaits(job.phase, event),
    ensures
        rollback_next(job, event).0.change == job.change,
        rollback_next(job, event).0.v6 == job.v6,
        rollback_next(job, event).1 matches RouteActionView::Run { arguments } ==> {
            ||| {
                &&& takes_candidate_away(job.change, event, arguments)
                &&& rollback_next(job, event).0.phase == RollbackPhase::Removal
            }
            ||| {
                &&& job.phase == RollbackPhase::Removal
                &&& event matches RouteEvent::Ran { result } && result is Ok
                &&& job.change.original.flags.contains("HOST"@)
                &&& job.change.original.flags.contains("STATIC"@)
                &&& puts_back(job.change.original, job.v6, arguments)
            }
        },
        job.phase == RollbackPhase::Removal && (event matches RouteEvent::Ran { result } && result
            is Ok) ==> (rollback_next(job, event).1 is Run <==> job.change.original.flags.contains(
            "HOST"@,
        ) && job.change.original.flags.contains("STATIC"@)),
        rollback_next(job, event).1 matches RouteActionView::Observe { destination } ==> destination
            == job.change.destination,
        !(rollback_next(job, event).1 is CheckInterface),
{
    match event {
        RouteEvent::Observed { route: Ok(current), v6 } => {
            law_route_commands_name_their_routes(current@, job.change, v6);
        },
        _ => {
            law_route_commands_name_their_routes(job.change.original, job.change, job.v6);
        },
    }
}

/// A rollback of a route runs its course to the end where nothing stands in its way: with the
/// privileges and the tool for it, the candidate live and each command successful, it ends well as
/// soon as the recorded route shows again. Where that was no static host route, the removal of the
/// candidate is its only command; where it was one, it is put back first.
pub proof fn law_route_rollbacks_run_to_the_end(
    change: RouteChangeView,
    v6: bool,
    live: RouteObservation,
    live_v6: bool,
    restored: RouteObservation,
    restored_v6: bool,
)
    requires
        live@.flags.contains("HOST"@),
        live@.interface == Some(change.interface),
        !same_route(live@, change.original),
        same_route(restored@, change.original),
    ensures
        ({
            let start = RouteRollbackView { change, v6, phase: RollbackPhase::Start };
            let found = RoutePrivileges { privileged: true, tool_available: true };
            let back = RouteEvent::Observed { route: Ok(restored), v6: restored_v6 };
            let ran = RouteEvent::Ran { result: Ok(()) };
            let (asking, first) = rollback_next(start, RouteEvent::Begin);
            let (looking, second) = rollback_next(asking, RouteEvent::Privileges { found });
            let (removing, third) = rollback_next(
                looking,
                RouteEvent::Observed { route: Ok(live), v6: live_v6 },
            );
            let (after, fourth) = rollback_next(removing, ran);
            &&& first is CheckPrivileges
            &&& second == (RouteActionView::Observe { destination: change.destination })
            &&& third matches RouteActionView::Run { arguments } && removes(
                arguments,
                live_v6,
                live@.ifscope,
                live@.destination,
            )
            &&& if change.original.flags.contains("HOST"@) && change.original.flags.contains(
                "STATIC"@,
            ) {
                let (last, fifth) = rollback_next(after, ran);
                &&& fourth is Run
                &&& fifth == (RouteActionView::Observe { destination: change.destination })
                &&& rollback_next(last, back).1 == (RouteActionView::Finish { failure: None })
            } else {
                &&& fourth == (RouteActionView::Observe { destination: change.destination })
                &&& rollback_next(after, back).1 == (RouteActionView::Finish { failure: None })
            }
            &&& rollback_next(looking, back).1 == (RouteActionView::Finish { failure: None })
        }),
{
    law_route_commands_name_their_routes(live@, change, live_v6);
}

/// A rollback of a route that cannot be done is refused before anything is run: without the
/// privileges or the tool, and where the live route is neither the recorded one nor that of the
/// candidate. A lookup or a command that fails ends it with an error, and it ends well only if the
/// route that it saw last is the recorded one.
pub proof fn law_route_rollbacks_are_refused_with_a_reason(
    job: RouteRollbackView,
    event: RouteEvent,
)
    requires
        rollback_awaits(job.phase, event),
    ensures
        event matches RouteEvent::Privileges { found } ==> (rollback_next(job, event).1
            matches RouteActionView::Finish { failure } && failure is Some) == (!found.privileged
            || !found.tool_available),
        job.phase == RollbackPhase::Observation && (event matches RouteEvent::Observed {
            route: Ok(current),
            ..
        } && !same_route(current@, job.change.original) && (!current@.flags.contains("HOST"@)
            || current@.interface != Some(job.change.interface))) ==> (rollback_next(job, event).1
            matches RouteActionView::Finish { failure } && failure is Some),
        (event matches RouteEvent::Observed { route: Err(_), .. }) || (event matches RouteEvent::Ran {
            result: Err(_),
        }) ==> (rollback_next(job, event).1 matches RouteActionView::Finish { failure } && failure
            is Some),
        (event matches RouteEvent::Observed { route: Ok(current), .. } && same_route(
            current@,
            job.change.original,
        )) <==> rollback_next(job, event).1 == (RouteActionView::Finish { failure: None }),
{
}

/// An apply of a route changes the routing table by these commands alone: it removes the live route
/// if that is a static host route and the recorded one; it installs the candidate, naming its
/// destination, interface and gateway; and it puts the recorded route back where it had removed
/// it. All else it leaves to a rollback, which it starts only after the candidate was installed.
pub proof fn law_route_applies_run_only_these(job: RouteApplyView, event: RouteEvent)
    requires
        apply_awaits(job.phase, event),
        !(job.phase is Rollback),
    ensures
        apply_next(job, event).0.change == job.change,
        apply_next(job, event).0.v6 == job.v6,
        apply_next(job, event).0.original_v6 == job.original_v6,
        apply_next(job, event).1 matches RouteActionView::Run { arguments } ==> {
            ||| {
                &&& takes_original_away(job.change, event, arguments)
                &&& apply_next(job, event).0.phase is Removal
            }
            ||| {
                &&& is_clear_for_candidate(job, event)
                &&& installs(job.change, job.v6, arguments)
                &&& apply_next(job, event).0.phase is Installation
            }
            ||| {
                &&& event matches RouteEvent::Ran { result } && result is Err
                &&& job.phase == (ApplyPhase::Installation { removed: true })
                &&& job.change.original.flags.contains("HOST"@)
                &&& job.change.original.flags.contains("STATIC"@)
                &&& puts_back(job.change.original, job.original_v6, arguments)
            }
        },
        apply_next(job, event).0.phase is Rollback ==> job.phase is Verification,
        apply_next(job, event).1 matches RouteActionView::Observe { destination } ==> destination
            == job.change.destination,
        apply_next(job, event).1 matches RouteActionView::CheckInterface { interface } ==> interface
            == job.change.interface,
{
    match event {
        RouteEvent::Observed { route: Ok(current), v6 } => {
            law_route_commands_name_their_routes(current@, job.change, v6);
            law_route_commands_name_their_routes(current@, job.change, job.v6);
        },
        _ => {
            law_route_commands_name_their_routes(job.change.original, job.change, job.v6);
            law_route_commands_name_their_routes(
                job.change.original,
                job.change,
                job.original_v6,
            );
        },
    }
}

/// Whether a command installs the candidate of a change.
pub open spec fn installs(
    change: RouteChangeView,
    v6: bool,
    arguments: Seq<Seq<char>>,
) -> bool {
    match change.gateway {
        Some(gateway) => adds(
            arguments,
            v6,
            Some(change.interface),
            change.destination,
            seq![gateway],
        ),
        None => adds(
            arguments,
            v6,
            None,
            change.destination,
            seq!["-interface"@, change.interface],
        ),
    }
}

/// An apply of a route runs its course to the end where nothing stands in its way: with the
/// privileges, the tool and the interface for it, the recorded route still live and able to be put
/// back, and each command successful, it ends well as soon as the live route is a host route
/// through the interface, and the gateway if there is one, of the candidate. A live host route is
/// removed first, and nothing else is.
pub proof fn law_route_applies_run_to_the_end(
    change: RouteChangeView,
    v6: bool,
    original_v6: bool,
    live: RouteObservation,
    live_v6: bool,
    installed: RouteObservation,
    installed_v6: bool,
)
    requires
        same_route(live@, change.original),
        live@.flags.contains("HOST"@) ==> live@.flags.contains("STATIC"@),
        installed@.flags.contains("HOST"@),
        installed@.interface == Some(change.interface),
        change.gateway is Some ==> installed@.gateway == change.gateway,
    ensures
        ({
            let start = RouteApplyView {
                change,
                v6,
                original_v6,
                phase: ApplyPhase::Start,
                failure: Seq::empty(),
            };
            let found = RoutePrivileges { privileged: true, tool_available: true };
            let ran = RouteEvent::Ran { result: Ok(()) };
            let seen = RouteEvent::Observed { route: Ok(installed), v6: installed_v6 };
            let (asking, first) = apply_next(start, RouteEvent::Begin);
            let (checking, second) = apply_next(asking, RouteEvent::Privileges { found });
            let (looking, third) = apply_next(
                checking,
                RouteEvent::Interface { result: Ok(()) },
            );
            let (going, fourth) = apply_next(
                looking,
                RouteEvent::Observed { route: Ok(live), v6: live_v6 },
            );
            &&& first is CheckPrivileges
            &&& second == (RouteActionView::CheckInterface { interface: change.interface })
            &&& third == (RouteActionView::Observe { destination: change.destination })
            &&& if live@.flags.contains("HOST"@) {
                let (adding, fifth) = apply_next(going, ran);
                let (last, sixth) = apply_next(adding, ran);
                &&& fourth matches RouteActionView::Run { arguments } && removes(
                    arguments,
                    live_v6,
                    live@.ifscope,
                    live@.destination,
                )
                &&& fifth matches RouteActionView::Run { arguments } && installs(
                    change,
                    v6,
                    arguments,
                )
                &&& sixth == (RouteActionView::Observe { destination: change.destination })
                &&& apply_next(last, seen).1 == (RouteActionView::Finish { failure: None })
            } else {
                let (last, fifth) = apply_next(going, ran);
                &&& fourth matches RouteActionView::Run { arguments } && installs(
                    change,
                    v6,
                    arguments,
                )
                &&& fifth == (RouteActionView::Observe { destination: change.destination })
                &&& apply_next(last, seen).1 == (RouteActionView::Finish { failure: None })
            }
        }),
{
    law_route_commands_name_their_routes(live@, change, live_v6);
    law_route_commands_name_their_routes(live@, change, v6);
}

/// An apply of a route ends well only on a lookup that shows a host route through the interface,
/// and the gateway if there is one, of the candidate. A candidate that was installed but is not
/// selected is taken back, as is said in the error.
pub proof fn law_route_applies_end_on_what_shows(job: RouteApplyView, event: RouteEvent)
    requires
        apply_awaits(job.phase, event),
    ensures
        apply_next(job, event).1 == (RouteActionView::Finish { failure: None }) <==> job.phase
            is Verification && (event matches RouteEvent::Observed { route: Ok(current), .. }
            && current@.flags.contains("HOST"@) && current@.interface == Some(job.change.interface)
            && (job.change.gateway is Some ==> current@.gateway == job.change.gateway)),
        job.phase is Verification && (event matches RouteEvent::Observed { route: Ok(current), .. }
            && !(current@.flags.contains("HOST"@) && current@.interface == Some(
            job.change.interface,
        ) && (job.change.gateway is Some ==> current@.gateway == job.change.gateway)))
            ==> apply_next(job, event).0.phase is Rollback,
        job.phase matches ApplyPhase::Rollback { phase } ==> ({
            let back = rollback_next(
                RouteRollbackView { change: job.change, v6: job.original_v6, phase },
                event,
            );
            if back.1 is Finish {
                apply_next(job, event).1 matches RouteActionView::Finish { failure } && failure
                    is Some
            } else {
                apply_next(job, event).1 == back.1 && apply_next(job, event).0.phase
                    == (ApplyPhase::Rollback { phase: back.0.phase })
            }
        }),
        (event matches RouteEvent::Interface { result: Err(_) }) || (event
            matches RouteEvent::Privileges { found } && (!found.privileged
            || !found.tool_available)) || (event matches RouteEvent::Observed {
            route: Err(_),
            ..
        }) ==> (apply_next(job, event).1 matches RouteActionView::Finish { failure } && failure
            is Some),
{
}

/// The staged routes can be applied together exactly if each has a destination of its own, was
/// staged over a route that can be put back, and still finds that route live. Nothing else stands
/// against them.
pub proof fn law_route_conflicts_are_these(
    candidates: Seq<RouteCandidateView>,
    live: Seq<Result<RouteObservation, String>>,
    n: int,
)
    requires
        0 <= n <= candidates.len(),
        live.len() == candidates.len(),
    ensures
        candidate_conflicts(candidates, live, n) == Ok::<Seq<Seq<char>>, Seq<char>>(Seq::empty())
            <==> forall|i: int| 0 <= i < n ==> #[trigger] has_no_conflict(candidates, live, i),
        candidate_conflicts(candidates, live, n) is Err ==> exists|i: int|
            0 <= i < n && (#[trigger] live[i]) is Err,
    decreases n,
{
    if n > 0 {
        law_route_conflicts_are_these(candidates, live, n - 1);
        let i = n - 1;
        assert(staged_before(candidates, i) <==> !has_own_destination(candidates, i)) by {
            if staged_before(candidates, i) {
                let j = choose|j: int|
                    0 <= j < i && (#[trigger] candidates[j]).destination
                        == candidates[i].destination;
                assert(candidates[j].destination == candidates[i].destination);
            }
        }
        if candidate_conflicts(candidates, live, n) == Ok::<Seq<Seq<char>>, Seq<char>>(
            Seq::empty(),
        ) {
            let before = candidate_conflicts(candidates, live, i)->Ok_0;
            assert(before =~= Seq::empty());
            assert forall|k: int| 0 <= k < n implies #[trigger] has_no_conflict(
                candidates,
                live,
                k,
            ) by {}
        }
        if forall|k: int| 0 <= k < n ==> #[trigger] has_no_conflict(candidates, live, k) {
            assert(has_no_conflict(candidates, live, i));
        }
        if candidate_conflicts(candidates, live, n) is Err {
            if candidate_conflicts(candidates, live, i) is Err {
                let k = choose|k: int| 0 <= k < i && (#[trigger] live[k]) is Err;
                assert(live[k] is Err);
            } else {
                assert(live[i] is Err);
            }
        }
    }
}

/// Whether no earlier candidate has the same destination.
pub open spec fn has_own_destination(candidates: Seq<RouteCandidateView>, i: int) -> bool {
    forall|j: int|
        0 <= j < i ==> (#[trigger] candidates[j]).destination != candidates[i].destination
}

/// Whether nothing stands against a candidate.
pub open spec fn has_no_conflict(
    candidates: Seq<RouteCandidateView>,
    live: Seq<Result<RouteObservation, String>>,
    i: int,
) -> bool {
    &&& has_own_destination(candidates, i)
    &&& candidates[i].observed_route.flags.contains("HOST"@)
        ==> candidates[i].observed_route.flags.contains("STATIC"@)
    &&& live[i] matches Ok(current) && same_route(current@, candidates[i].observed_route)
}

/// A lookup gives a route exactly if it succeeded. What its report does not name is not there, but
/// for the destination, which is the one that was asked for.
pub proof fn law_lookups_start_from_the_destination(
    destination: Seq<char>,
    output: CommandOutput,
)
    ensures
        looked_up(destination, output) is Ok <==> output.succeeded(),
        looked_up(destination, output) matches Ok(route) ==> {
            let all = lines(output.output_text());
            &&& is_unnamed(all, "destination"@) ==> route.destination == destination
            &&& is_unnamed(all, "gateway"@) ==> route.gateway is None
            &&& is_unnamed(all, "interface"@) ==> route.interface is None
            &&& is_unnamed(all, "ifscope"@) ==> route.ifscope is None
            &&& is_unnamed(all, "flags"@) ==> route.flags.len() == 0
        },
{
    let start = RouteObservationView {
        destination,
        gateway: None,
        interface: None,
        ifscope: None,
        flags: Seq::empty(),
    };
    law_reports_give_what_they_name(start, lines(output.output_text()), 0);
}

/// A command that changes a route and fails is reported with what it wrote as an error, and where it
/// wrote none with what it wrote else.
pub proof fn law_failed_route_commands_say_why(output: CommandOutput)
    ensures
        output.error_text().len() > 0 ==> ends_with(route_failure(output), output.error_text()),
        output.error_text().len() == 0 ==> ends_with(
            route_failure(output),
            trimmed(output.output_text()),
        ),
{
    let text = route_failure(output);
    let end = if output.error_text().len() > 0 {
        output.error_text()
    } else {
        trimmed(output.output_text())
    };
    assert(text.skip(text.len() - end.len()) =~= end);
}

} // verus!
