//! What the commands print, line by line.
use vstd::prelude::*;

use crate::command::Host;
use crate::connectivity::{capture_support, describe_capture_support};
use crate::model::{
    views, ApplyPlan, ApplyPlanView, Capability, CapabilityView, Change, ChangeView, DoctorCheck,
    DoctorCheckView, Environment, EnvironmentStatus, EnvironmentView, LinuxImageChange,
    LinuxImageChangeView, RouteCandidate, RouteCandidateView, RouteObservation,
    RouteObservationView, Transaction, TransactionView, ValidationState,
};
use crate::path::{same_parts, FsPath};
use crate::staged_routes::{port_list_text, ports_text, RouteTest};
use crate::text::{
    decimal, join, join_texts, number_text, opt_text, pad, padded, text_or, texts,
};

verus! {

fn push_line(lines: &mut Vec<String>, line: String)
    ensures
        texts(final(lines)@) == texts(old(lines)@).push(line@),
{
    let ghost before = texts(lines@);
    lines.push(line);
    assert(texts(lines@) =~= before.push(line@));
}

fn count_text(n: usize) -> (r: String)
    ensures
        r@ == decimal(n as nat),
{
    number_text(n as u64)
}

fn text_of(o: &Option<String>, default: &str) -> (r: String)
    ensures
        r@ == text_or(opt_text(*o), default@),
{
    match o {
        Some(s) => s.clone(),
        None => default.to_owned(),
    }
}

/// One environment in the list of all.
pub struct ListRow {
    pub name: String,
    pub status: EnvironmentStatus,
    pub changes: usize,
    pub connections: usize,
}

/// The line of an environment in the list of all.
pub open spec fn list_line(row: ListRow) -> Seq<char> {
    padded(row.name@, 24) + " "@ + row.status.name() + " "@ + padded(
        decimal(row.changes as nat),
        9,
    ) + " "@ + decimal(row.connections as nat)
}

/// The list of all environments.
pub open spec fn list_lines(rows: Seq<ListRow>) -> Seq<Seq<char>> {
    if rows.len() == 0 {
        seq!["No environments."@]
    } else {
        seq![
            padded("NAME"@, 24) + " "@ + padded("STATE"@, 20) + " "@ + padded("CHANGES"@, 9)
                + " CONNECTIONS"@,
        ] + Seq::new(rows.len(), |i: int| list_line(rows[i]))
    }
}

/// The list of all environments.
pub fn list(rows: &Vec<ListRow>) -> (r: Vec<String>)
    ensures
        texts(r@) == list_lines(rows@),
{
    let mut r: Vec<String> = Vec::new();
    assert(texts(r@) =~= Seq::empty());
    if rows.len() == 0 {
        push_line(&mut r, "No environments.".to_owned());
        assert(texts(r@) =~= list_lines(rows@));
        return r;
    }
    push_line(
        &mut r,
        pad("NAME", 24).concat(" ").concat(pad("STATE", 20).as_str()).concat(" ").concat(
            pad("CHANGES", 9).as_str(),
        ).concat(" CONNECTIONS"),
    );
    let ghost head = texts(r@);
    let ghost body = Seq::new(rows@.len(), |i: int| list_line(rows@[i]));
    let mut i: usize = 0;
    assert(head =~= head + body.take(0));
    while i < rows.len()
        invariant
            i <= rows.len(),
            body == Seq::new(rows@.len(), |i: int| list_line(rows@[i])),
            texts(r@) == head + body.take(i as int),
        decreases rows.len() - i,
    {
        let row = &rows[i];
        let ghost before = texts(r@);
        let line = pad(row.name.as_str(), 24).concat(" ").concat(row.status.label()).concat(
            " ",
        ).concat(pad(count_text(row.changes).as_str(), 9).as_str()).concat(" ").concat(
            count_text(row.connections).as_str(),
        );
        assert(line@ == body[i as int]);
        push_line(&mut r, line);
        assert(body.take(i + 1) =~= body.take(i as int).push(body[i as int]));
        assert(texts(r@) =~= head + body.take(i + 1));
        i += 1;
    }
    assert(body.take(rows.len() as int) =~= body);
    assert(texts(r@) =~= list_lines(rows@));
    r
}

/// How many circuits are lost.
pub open spec fn lost_count(baseline: Seq<CapabilityView>) -> nat
    decreases baseline.len(),
{
    if baseline.len() == 0 {
        0
    } else {
        lost_count(baseline.drop_last()) + if baseline.last().validation == ValidationState::Lost {
            1nat
        } else {
            0nat
        }
    }
}

fn count_lost(baseline: &Vec<Capability>) -> (n: usize)
    ensures
        n == lost_count(views(baseline@)),
{
    let ghost all = views(baseline@);
    let mut n: usize = 0;
    let mut i: usize = 0;
    while i < baseline.len()
        invariant
            i <= baseline.len(),
            n <= i,
            all == views(baseline@),
            n == lost_count(all.take(i as int)),
        decreases baseline.len() - i,
    {
        proof {
            assert(all.take(i + 1).drop_last() =~= all.take(i as int));
            assert(all.take(i + 1).last() == baseline@[i as int]@);
        }
        if baseline[i].validation == ValidationState::Lost {
            n += 1;
        }
        i += 1;
    }
    assert(all.take(baseline.len() as int) =~= all);
    n
}

/// The summary of an environment.
pub open spec fn status_lines(
    environment: EnvironmentView,
    changes: nat,
    runtime: Option<Seq<char>>,
) -> Seq<Seq<char>> {
    let head = seq![
        "Environment: "@ + environment.name,
        "State:       "@ + environment.status.name(),
        "Changes:     "@ + decimal(changes),
        "Connections: "@ + decimal(environment.baseline.len()),
    ];
    let middle = match runtime {
        Some(description) => seq![
            "Runtime:     "@ + description,
            "Tracked:     "@ + decimal(environment.tracked_paths.len()),
        ],
        None => Seq::empty(),
    };
    head + middle + seq!["Lost:        "@ + decimal(lost_count(environment.baseline))]
}

/// The summary of an environment. `runtime` is what its sandbox is called.
pub fn status(environment: &Environment, changes: usize, runtime: &Option<String>) -> (r: Vec<
    String,
>)
    ensures
        texts(r@) == status_lines(environment@, changes as nat, opt_text(*runtime)),
{
    let mut r: Vec<String> = Vec::new();
    push_line(&mut r, "Environment: ".to_owned().concat(environment.name.as_str()));
    push_line(&mut r, "State:       ".to_owned().concat(environment.status.label()));
    push_line(&mut r, "Changes:     ".to_owned().concat(count_text(changes).as_str()));
    push_line(
        &mut r,
        "Connections: ".to_owned().concat(count_text(environment.baseline.len()).as_str()),
    );
    match runtime {
        Some(description) => {
            push_line(&mut r, "Runtime:     ".to_owned().concat(description.as_str()));
            push_line(
                &mut r,
                "Tracked:     ".to_owned().concat(
                    count_text(environment.tracked_paths.len()).as_str(),
                ),
            );
        },
        None => {},
    }
    push_line(
        &mut r,
        "Lost:        ".to_owned().concat(count_text(count_lost(&environment.baseline)).as_str()),
    );
    assert(texts(r@) =~= status_lines(environment@, changes as nat, opt_text(*runtime)));
    r
}

/// The line of a changed path.
pub open spec fn change_line(change: ChangeView) -> Seq<char> {
    change.kind.name() + " "@ + change.path
}

/// The changed paths.
pub open spec fn change_lines(changes: Seq<ChangeView>) -> Seq<Seq<char>> {
    if changes.len() == 0 {
        seq!["No filesystem changes."@]
    } else {
        Seq::new(changes.len(), |i: int| change_line(changes[i]))
    }
}

/// The changed paths.
pub fn changes(list: &Vec<Change>) -> (r: Vec<String>)
    ensures
        texts(r@) == change_lines(views(list@)),
{
    let mut r: Vec<String> = Vec::new();
    assert(texts(r@) =~= Seq::empty());
    if list.len() == 0 {
        push_line(&mut r, "No filesystem changes.".to_owned());
        assert(texts(r@) =~= change_lines(views(list@)));
        return r;
    }
    let mut i: usize = 0;
    while i < list.len()
        invariant
            i <= list.len(),
            r@.len() == i,
            forall|k: int| 0 <= k < i ==> (#[trigger] r@[k])@ == change_line(list@[k]@),
        decreases list.len() - i,
    {
        r.push(
            list[i].kind.label().to_owned().concat(" ").concat(list[i].path.text.as_str()),
        );
        i += 1;
    }
    assert(texts(r@) =~= change_lines(views(list@)));
    r
}

/// Whether a change is one that a user asked to see.
pub fn selects(selected: &Option<FsPath>, change: &Change) -> (r: bool)
    ensures
        r == (*selected matches Some(path) ==> same_parts(path@, change@.path)),
{
    match selected {
        None => true,
        Some(path) => path.same(&change.path),
    }
}

/// The lines of a circuit.
pub open spec fn circuit_lines(capability: CapabilityView, with_name: bool) -> Seq<Seq<char>> {
    let first = seq![
        padded(capability.id, 18) + " "@ + capability.direction.name() + " "@
            + capability.validation.name() + " "@ + padded(capability.local, 22) + " "@
            + capability.remote,
    ];
    let second = match capability.name {
        Some(name) => if with_name {
            seq!["  name: "@ + name]
        } else {
            Seq::empty()
        },
        None => Seq::empty(),
    };
    let third = match capability.detail {
        Some(detail) => seq!["  "@ + detail],
        None => Seq::empty(),
    };
    first + second + third
}

/// The lines of circuits.
pub open spec fn all_circuit_lines(
    baseline: Seq<CapabilityView>,
    with_names: bool,
) -> Seq<Seq<char>>
    decreases baseline.len(),
{
    if baseline.len() == 0 {
        Seq::empty()
    } else {
        all_circuit_lines(baseline.drop_last(), with_names) + circuit_lines(
            baseline.last(),
            with_names,
        )
    }
}

/// The table of circuits.
pub open spec fn connection_lines(
    baseline: Seq<CapabilityView>,
    with_names: bool,
) -> Seq<Seq<char>> {
    if baseline.len() == 0 {
        seq!["No connection capabilities were captured."@]
    } else {
        seq![
            padded("ID"@, 18) + " "@ + padded("DIRECTION"@, 9) + " "@ + padded("RESULT"@, 12)
                + " "@ + padded("LOCAL"@, 22) + " REMOTE"@,
        ] + all_circuit_lines(baseline, with_names)
    }
}

/// The table of circuits.
pub fn connections(baseline: &Vec<Capability>, with_names: bool) -> (r: Vec<String>)
    ensures
        texts(r@) == connection_lines(views(baseline@), with_names),
{
    let mut r: Vec<String> = Vec::new();
    assert(texts(r@) =~= Seq::empty());
    if baseline.len() == 0 {
        push_line(&mut r, "No connection capabilities were captured.".to_owned());
        assert(texts(r@) =~= connection_lines(views(baseline@), with_names));
        return r;
    }
    push_line(
        &mut r,
        pad("ID", 18).concat(" ").concat(pad("DIRECTION", 9).as_str()).concat(" ").concat(
            pad("RESULT", 12).as_str(),
        ).concat(" ").concat(pad("LOCAL", 22).as_str()).concat(" REMOTE"),
    );
    let ghost head = texts(r@);
    let ghost all = views(baseline@);
    let mut i: usize = 0;
    assert(head =~= head + all_circuit_lines(all.take(0), with_names));
    while i < baseline.len()
        invariant
            i <= baseline.len(),
            all == views(baseline@),
            texts(r@) == head + all_circuit_lines(all.take(i as int), with_names),
        decreases baseline.len() - i,
    {
        let capability = &baseline[i];
        let ghost before = texts(r@);
        proof {
            assert(all.take(i + 1).drop_last() =~= all.take(i as int));
            assert(all.take(i + 1).last() == capability@);
        }
        push_line(
            &mut r,
            pad(capability.id.as_str(), 18).concat(" ").concat(
                capability.direction.label(),
            ).concat(" ").concat(capability.validation.label()).concat(" ").concat(
                pad(capability.local.as_str(), 22).as_str(),
            ).concat(" ").concat(capability.remote.as_str()),
        );
        match &capability.name {
            Some(name) => {
                if with_names {
                    push_line(&mut r, "  name: ".to_owned().concat(name.as_str()));
                }
            },
            None => {},
        }
        match &capability.detail {
            Some(detail) => {
                push_line(&mut r, "  ".to_owned().concat(detail.as_str()));
            },
            None => {},
        }
        assert(texts(r@) =~= before + circuit_lines(capability@, with_names));
        assert(texts(r@) =~= head + all_circuit_lines(all.take(i + 1), with_names));
        i += 1;
    }
    assert(all.take(baseline.len() as int) =~= all);
    r
}

/// The line of an apply.
pub open spec fn transaction_line(transaction: TransactionView) -> Seq<char> {
    padded(transaction.id, 40) + " "@ + padded(transaction.environment, 24) + " "@
        + if transaction.rolled_back_at is Some {
        "rolled_back"@
    } else {
        "applied"@
    }
}

/// The table of applies.
pub open spec fn history_lines(transactions: Seq<TransactionView>) -> Seq<Seq<char>> {
    if transactions.len() == 0 {
        seq!["No apply transactions."@]
    } else {
        seq![padded("TRANSACTION"@, 40) + " "@ + padded("ENVIRONMENT"@, 24) + " STATUS"@]
            + Seq::new(transactions.len(), |i: int| transaction_line(transactions[i]))
    }
}

/// The table of applies.
pub fn history(transactions: &Vec<Transaction>) -> (r: Vec<String>)
    ensures
        texts(r@) == history_lines(views(transactions@)),
{
    let mut r: Vec<String> = Vec::new();
    assert(texts(r@) =~= Seq::empty());
    if transactions.len() == 0 {
        push_line(&mut r, "No apply transactions.".to_owned());
        assert(texts(r@) =~= history_lines(views(transactions@)));
        return r;
    }
    push_line(
        &mut r,
        pad("TRANSACTION", 40).concat(" ").concat(pad("ENVIRONMENT", 24).as_str()).concat(
            " STATUS",
        ),
    );
    assert(texts(r@).len() == r@.len());
    assert(r@.len() == 1);
    let ghost all = views(transactions@);
    let ghost head = r@[0]@;
    let mut i: usize = 0;
    while i < transactions.len()
        invariant
            i <= transactions.len(),
            all == views(transactions@),
            r@.len() == i + 1,
            r@[0]@ == head,
            forall|k: int| 0 <= k < i ==> (#[trigger] r@[k + 1])@ == transaction_line(all[k]),
        decreases transactions.len() - i,
    {
        let transaction = &transactions[i];
        let state = if transaction.rolled_back_at.is_some() {
            "rolled_back"
        } else {
            "applied"
        };
        let line = pad(transaction.id.as_str(), 40).concat(" ").concat(
            pad(transaction.environment.as_str(), 24).as_str(),
        ).concat(" ").concat(state);
        assert(line@ == transaction_line(all[i as int]));
        r.push(line);
        i += 1;
    }
    proof {
        let want = history_lines(all);
        assert(texts(r@).len() == want.len());
        assert forall|k: int| 0 <= k < want.len() implies texts(r@)[k] == want[k] by {
            if k > 0 {
                assert(r@[(k - 1) + 1]@ == transaction_line(all[k - 1]));
            }
        }
        assert(texts(r@) =~= want);
    }
    r
}

/// The line of a check of the host.
pub open spec fn doctor_line(check: DoctorCheckView) -> Seq<char> {
    padded(
        if check.ok {
            "PASS"@
        } else if check.required {
            "FAIL"@
        } else {
            "INFO"@
        },
        5,
    ) + " "@ + padded(check.name, 22) + " "@ + check.detail
}

/// Whether a required check of the host failed.
pub open spec fn is_unfit(checks: Seq<DoctorCheckView>) -> bool {
    exists|i: int| 0 <= i < checks.len() && (#[trigger] checks[i]).required && !checks[i].ok
}

/// The report on the host, and the exit code that goes with it.
pub fn doctor(checks: &Vec<DoctorCheck>) -> (r: (Vec<String>, i32))
    ensures
        texts(r.0@) == Seq::new(checks@.len(), |i: int| doctor_line(checks@[i]@)),
        r.1 == crate::session::check_code(is_unfit(views(checks@))),
{
    let ghost all = views(checks@);
    let mut lines: Vec<String> = Vec::new();
    let mut unfit = false;
    let mut i: usize = 0;
    while i < checks.len()
        invariant
            i <= checks.len(),
            all == views(checks@),
            lines@.len() == i,
            forall|k: int| 0 <= k < i ==> (#[trigger] lines@[k])@ == doctor_line(checks@[k]@),
            unfit == exists|k: int| 0 <= k < i && (#[trigger] all[k]).required && !all[k].ok,
        decreases checks.len() - i,
    {
        let check = &checks[i];
        let mark = if check.ok {
            "PASS"
        } else if check.required {
            "FAIL"
        } else {
            "INFO"
        };
        lines.push(
            pad(mark, 5).concat(" ").concat(pad(check.name.as_str(), 22).as_str()).concat(
                " ",
            ).concat(check.detail.as_str()),
        );
        if check.required && !check.ok {
            unfit = true;
            assert(all[i as int].required && !all[i as int].ok);
        }
        i += 1;
    }
    assert(texts(lines@) =~= Seq::new(checks@.len(), |i: int| doctor_line(checks@[i]@)));
    (
        lines,
        if unfit {
            2
        } else {
            0
        },
    )
}

/// A plan.
pub open spec fn plan_lines(plan: ApplyPlanView) -> Seq<Seq<char>> {
    seq![
        "Environment:            "@ + plan.environment,
        "Validation mode:         "@ + if plan.guarded_trial {
            "GUARDED ROUTE TRIAL"@
        } else {
            "NORMAL"@
        },
        "Filesystem changes:     "@ + decimal(plan.changes.len()),
        "Route changes:          "@ + decimal(plan.route_candidates.len()),
        "Post-apply checks:       "@ + decimal(plan.deferred_required.len()),
        "Lost required circuits: "@ + decimal(plan.lost_required.len()),
        "Unverifiable circuits:  "@ + decimal(plan.unverifiable_required.len()),
        "Host conflicts:         "@ + decimal(plan.conflicts.len()),
        "Route conflicts:        "@ + decimal(plan.route_conflicts.len()),
    ] + Seq::new(
        plan.route_conflicts.len(),
        |i: int| "  route blocker: "@ + plan.route_conflicts[i],
    ) + seq![
        "Result:                 "@ + if plan.allowed {
            if plan.guarded_trial {
                "READY FOR GUARDED TRIAL"@
            } else {
                "READY TO APPLY"@
            }
        } else {
            "APPLY BLOCKED"@
        },
    ]
}

/// A plan.
pub fn print_plan(plan: &ApplyPlan) -> (r: Vec<String>)
    ensures
        texts(r@) == plan_lines(plan@),
{
    let mut r: Vec<String> = Vec::new();
    push_line(&mut r, "Environment:            ".to_owned().concat(plan.environment.as_str()));
    push_line(
        &mut r,
        "Validation mode:         ".to_owned().concat(
            if plan.guarded_trial {
                "GUARDED ROUTE TRIAL"
            } else {
                "NORMAL"
            },
        ),
    );
    push_line(
        &mut r,
        "Filesystem changes:     ".to_owned().concat(count_text(plan.changes.len()).as_str()),
    );
    push_line(
        &mut r,
        "Route changes:          ".to_owned().concat(
            count_text(plan.route_candidates.len()).as_str(),
        ),
    );
    push_line(
        &mut r,
        "Post-apply checks:       ".to_owned().concat(
            count_text(plan.deferred_required.len()).as_str(),
        ),
    );
    push_line(
        &mut r,
        "Lost required circuits: ".to_owned().concat(
            count_text(plan.lost_required.len()).as_str(),
        ),
    );
    push_line(
        &mut r,
        "Unverifiable circuits:  ".to_owned().concat(
            count_text(plan.unverifiable_required.len()).as_str(),
        ),
    );
    push_line(
        &mut r,
        "Host conflicts:         ".to_owned().concat(count_text(plan.conflicts.len()).as_str()),
    );
    push_line(
        &mut r,
        "Route conflicts:        ".to_owned().concat(
            count_text(plan.route_conflicts.len()).as_str(),
        ),
    );
    let ghost head = plan_lines(plan@).take(9);
    assert(texts(r@) =~= head);
    let ghost body = Seq::new(
        plan@.route_conflicts.len(),
        |i: int| "  route blocker: "@ + plan@.route_conflicts[i],
    );
    let mut i: usize = 0;
    assert(head =~= head + body.take(0));
    while i < plan.route_conflicts.len()
        invariant
            i <= plan.route_conflicts.len(),
            body == Seq::new(
                plan@.route_conflicts.len(),
                |i: int| "  route blocker: "@ + plan@.route_conflicts[i],
            ),
            texts(r@) == head + body.take(i as int),
        decreases plan.route_conflicts.len() - i,
    {
        let line = "  route blocker: ".to_owned().concat(plan.route_conflicts[i].as_str());
        assert(line@ == body[i as int]);
        push_line(&mut r, line);
        assert(body.take(i + 1) =~= body.take(i as int).push(body[i as int]));
        assert(texts(r@) =~= head + body.take(i + 1));
        i += 1;
    }
    assert(body.take(plan.route_conflicts.len() as int) =~= body);
    push_line(
        &mut r,
        "Result:                 ".to_owned().concat(
            if plan.allowed {
                if plan.guarded_trial {
                    "READY FOR GUARDED TRIAL"
                } else {
                    "READY TO APPLY"
                }
            } else {
                "APPLY BLOCKED"
            },
        ),
    );
    assert(texts(r@) =~= plan_lines(plan@));
    r
}

/// What is said of a new environment.
pub open spec fn creation_lines(host: Host, environment: EnvironmentView) -> Seq<Seq<char>> {
    let head = seq![
        "Created environment '"@ + environment.name + "'."@,
        "Captured "@ + decimal(environment.baseline.len()) + " active connection capabilities."@,
    ];
    match host {
        Host::Linux => head + seq!["Enter with: netsandbox enter "@ + environment.name],
        Host::MacOs => head + seq![
            "Note: "@ + capture_support(host),
            "Stage a route candidate with: netsandbox mac route-preview "@ + environment.name
                + " DESTINATION --interface INTERFACE --port PORT"@,
            "Stage files, then use dependency-free native execution: netsandbox exec "@
                + environment.name + " -- COMMAND ARGUMENT..."@,
            "Legacy guest backends remain optional: netsandbox mac vm-clone "@ + environment.name
                + " BASE_INSTANCE"@,
        ],
        Host::Other => head + seq!["Note: "@ + capture_support(host)],
    }
}

/// What is said of a new environment.
pub fn creation(host: Host, environment: &Environment) -> (r: Vec<String>)
    ensures
        texts(r@) == creation_lines(host, environment@),
{
    let name = environment.name.as_str();
    let mut r: Vec<String> = Vec::new();
    push_line(&mut r, "Created environment '".to_owned().concat(name).concat("'."));
    push_line(
        &mut r,
        "Captured ".to_owned().concat(count_text(environment.baseline.len()).as_str()).concat(
            " active connection capabilities.",
        ),
    );
    match host {
        Host::Linux => {
            push_line(&mut r, "Enter with: netsandbox enter ".to_owned().concat(name));
        },
        Host::MacOs => {
            push_line(&mut r, "Note: ".to_owned().concat(describe_capture_support(host)));
            push_line(
                &mut r,
                "Stage a route candidate with: netsandbox mac route-preview ".to_owned().concat(
                    name,
                ).concat(" DESTINATION --interface INTERFACE --port PORT"),
            );
            push_line(
                &mut r,
                "Stage files, then use dependency-free native execution: netsandbox exec ".to_owned().concat(
                name).concat(" -- COMMAND ARGUMENT..."),
            );
            push_line(
                &mut r,
                "Legacy guest backends remain optional: netsandbox mac vm-clone ".to_owned().concat(
                    name,
                ).concat(" BASE_INSTANCE"),
            );
        },
        Host::Other => {
            push_line(&mut r, "Note: ".to_owned().concat(describe_capture_support(host)));
        },
    }
    assert(texts(r@) =~= creation_lines(host, environment@));
    r
}

/// The line of a change of a container.
pub open spec fn image_change_line(change: LinuxImageChangeView) -> Seq<char> {
    padded(change.kind, 2) + " "@ + padded(
        if change.is_tracked {
            "tracked"@
        } else {
            "UNTRACKED"@
        },
        9,
    ) + " "@ + change.path
}

/// The changes of a container.
pub open spec fn image_change_lines(changes: Seq<LinuxImageChangeView>) -> Seq<Seq<char>> {
    if changes.len() == 0 {
        seq!["No Linux image changes."@]
    } else {
        Seq::new(changes.len(), |i: int| image_change_line(changes[i]))
    }
}

/// The changes of a container.
pub fn image_changes(list: &Vec<LinuxImageChange>) -> (r: Vec<String>)
    ensures
        texts(r@) == image_change_lines(views(list@)),
{
    let mut r: Vec<String> = Vec::new();
    assert(texts(r@) =~= Seq::empty());
    if list.len() == 0 {
        push_line(&mut r, "No Linux image changes.".to_owned());
        assert(texts(r@) =~= image_change_lines(views(list@)));
        return r;
    }
    let mut i: usize = 0;
    while i < list.len()
        invariant
            i <= list.len(),
            r@.len() == i,
            forall|k: int| 0 <= k < i ==> (#[trigger] r@[k])@ == image_change_line(list@[k]@),
        decreases list.len() - i,
    {
        let mark = if list[i].is_tracked {
            "tracked"
        } else {
            "UNTRACKED"
        };
        r.push(
            pad(list[i].kind.as_str(), 2).concat(" ").concat(pad(mark, 9).as_str()).concat(
                " ",
            ).concat(list[i].path.text.as_str()),
        );
        i += 1;
    }
    assert(texts(r@) =~= image_change_lines(views(list@)));
    r
}

/// The line of a route candidate.
pub open spec fn candidate_line(candidate: RouteCandidateView) -> Seq<char> {
    padded(candidate.id, 18) + " "@ + padded(candidate.destination, 18) + " "@ + padded(
        candidate.interface,
        12,
    ) + " "@ + padded(text_or(candidate.gateway, "direct"@), 18) + " "@ + port_list_text(
        candidate.ports,
    )
}

/// The table of route candidates.
pub open spec fn candidate_lines(candidates: Seq<RouteCandidateView>) -> Seq<Seq<char>> {
    if candidates.len() == 0 {
        seq!["No macOS route candidates."@]
    } else {
        seq![
            padded("ID"@, 18) + " "@ + padded("DESTINATION"@, 18) + " "@ + padded(
                "INTERFACE"@,
                12,
            ) + " "@ + padded("GATEWAY"@, 18) + " PORTS"@,
        ] + Seq::new(candidates.len(), |i: int| candidate_line(candidates[i]))
    }
}

/// The table of route candidates.
pub fn route_candidates(candidates: &Vec<RouteCandidate>) -> (r: Vec<String>)
    ensures
        texts(r@) == candidate_lines(views(candidates@)),
{
    let mut r: Vec<String> = Vec::new();
    assert(texts(r@) =~= Seq::empty());
    if candidates.len() == 0 {
        push_line(&mut r, "No macOS route candidates.".to_owned());
        assert(texts(r@) =~= candidate_lines(views(candidates@)));
        return r;
    }
    push_line(
        &mut r,
        pad("ID", 18).concat(" ").concat(pad("DESTINATION", 18).as_str()).concat(" ").concat(
            pad("INTERFACE", 12).as_str(),
        ).concat(" ").concat(pad("GATEWAY", 18).as_str()).concat(" PORTS"),
    );
    assert(texts(r@).len() == r@.len());
    assert(r@.len() == 1);
    let ghost all = views(candidates@);
    let ghost head = r@[0]@;
    let mut i: usize = 0;
    while i < candidates.len()
        invariant
            i <= candidates.len(),
            all == views(candidates@),
            r@.len() == i + 1,
            r@[0]@ == head,
            forall|k: int| 0 <= k < i ==> (#[trigger] r@[k + 1])@ == candidate_line(all[k]),
        decreases candidates.len() - i,
    {
        let candidate = &candidates[i];
        let line = pad(candidate.id.as_str(), 18).concat(" ").concat(
            pad(candidate.destination.as_str(), 18).as_str(),
        ).concat(" ").concat(pad(candidate.interface.as_str(), 12).as_str()).concat(" ").concat(
            pad(text_of(&candidate.gateway, "direct").as_str(), 18).as_str(),
        ).concat(" ").concat(ports_text(&candidate.ports).as_str());
        assert(line@ == candidate_line(all[i as int]));
        r.push(line);
        i += 1;
    }
    proof {
        let want = candidate_lines(all);
        assert(texts(r@).len() == want.len());
        assert forall|k: int| 0 <= k < want.len() implies texts(r@)[k] == want[k] by {
            if k > 0 {
                assert(r@[(k - 1) + 1]@ == candidate_line(all[k - 1]));
            }
        }
        assert(texts(r@) =~= want);
    }
    r
}

/// A route of the host.
pub open spec fn route_lines(route: RouteObservationView) -> Seq<Seq<char>> {
    seq![
        "Destination: "@ + route.destination,
        "Interface:   "@ + text_or(route.interface, "unknown"@),
        "Gateway:     "@ + text_or(route.gateway, "none"@),
        "Flags:       "@ + join_texts(route.flags, ","@),
    ]
}

/// A route of the host.
pub fn route(observation: &RouteObservation) -> (r: Vec<String>)
    ensures
        texts(r@) == route_lines(observation@),
{
    let r = vec![
        "Destination: ".to_owned().concat(observation.destination.as_str()),
        "Interface:   ".to_owned().concat(text_of(&observation.interface, "unknown").as_str()),
        "Gateway:     ".to_owned().concat(text_of(&observation.gateway, "none").as_str()),
        "Flags:       ".to_owned().concat(join(&observation.flags, ",").as_str()),
    ];
    assert(texts(r@) =~= route_lines(observation@));
    r
}

/// What is said of a route that was staged.
pub open spec fn staged_route_lines(
    candidate: RouteCandidateView,
    environment: Seq<char>,
) -> Seq<Seq<char>> {
    seq![
        "Staged macOS route candidate '"@ + candidate.id + "'."@,
        "Current route: "@ + text_or(candidate.observed_route.interface, "unknown"@) + " via "@
            + text_or(candidate.observed_route.gateway, "no gateway"@),
        "Candidate:     "@ + candidate.destination + " via "@ + candidate.interface
            + match candidate.gateway {
            Some(gateway) => " gateway "@ + gateway,
            None => ""@,
        },
        "The host routing table was not changed."@,
        "After testing, preview apply with: netsandbox apply "@ + environment + " --dry-run"@,
    ]
}

/// What is said of a route that was staged.
pub fn staged_route(candidate: &RouteCandidate, environment: &str) -> (r: Vec<String>)
    ensures
        texts(r@) == staged_route_lines(candidate@, environment@),
{
    let hop = match &candidate.gateway {
        Some(gateway) => " gateway ".to_owned().concat(gateway.as_str()),
        None => "".to_owned(),
    };
    let r = vec![
        "Staged macOS route candidate '".to_owned().concat(candidate.id.as_str()).concat("'."),
        "Current route: ".to_owned().concat(
            text_of(&candidate.observed_route.interface, "unknown").as_str(),
        ).concat(" via ").concat(
            text_of(&candidate.observed_route.gateway, "no gateway").as_str(),
        ),
        "Candidate:     ".to_owned().concat(candidate.destination.as_str()).concat(
            " via ",
        ).concat(candidate.interface.as_str()).concat(hop.as_str()),
        "The host routing table was not changed.".to_owned(),
        "After testing, preview apply with: netsandbox apply ".to_owned().concat(
            environment,
        ).concat(" --dry-run"),
    ];
    assert(texts(r@) =~= staged_route_lines(candidate@, environment@));
    r
}

/// What is said after the route candidates were tested.
pub open spec fn route_test_lines(test: RouteTest, environment: Seq<char>) -> Seq<Seq<char>> {
    let head = seq!["The host routing table was not changed."@];
    if test.guarded {
        head.push(
            "Exact candidate-route checks require a guarded live trial. Preview it with: netsandbox apply "@
                + environment + " --dry-run --trial"@,
        )
    } else if !test.failed {
        head.push(
            "Candidate checks passed. Apply with explicit approval: sudo netsandbox apply "@
                + environment + " --yes"@,
        )
    } else {
        head
    }
}

/// What is said after the route candidates were tested.
pub fn route_test(test: RouteTest, environment: &str) -> (r: Vec<String>)
    ensures
        texts(r@) == route_test_lines(test, environment@),
{
    let mut r: Vec<String> = Vec::new();
    push_line(&mut r, "The host routing table was not changed.".to_owned());
    if test.guarded {
        push_line(
            &mut r,
            "Exact candidate-route checks require a guarded live trial. Preview it with: netsandbox apply ".to_owned().concat(
            environment).concat(" --dry-run --trial"),
        );
    } else if !test.failed {
        push_line(
            &mut r,
            "Candidate checks passed. Apply with explicit approval: sudo netsandbox apply ".to_owned().concat(
            environment).concat(" --yes"),
        );
    }
    assert(texts(r@) =~= route_test_lines(test, environment@));
    r
}

/// How many circuits were checked just before an apply.
pub fn refreshed(count: usize) -> (r: String)
    ensures
        r@ == "Refreshed "@ + decimal(count as nat) + " required "@ + (if count == 1 {
            "circuit"@
        } else {
            "circuits"@
        }) + " immediately before apply."@,
{
    "Refreshed ".to_owned().concat(count_text(count).as_str()).concat(" required ").concat(
        if count == 1 {
            "circuit"
        } else {
            "circuits"
        },
    ).concat(" immediately before apply.")
}

} // verus!
