//! Sandboxes on the macOS host itself: commands see copies of the staged files and may write only
//! to them.
use vstd::prelude::*;

use crate::candidate::{rewrite_argument, rewritten, CanonicalForms, Mappings};
use crate::clock::Timestamp;
use crate::diff::{unsafe_path_message, validate_relative_path};
use crate::identity::{hex_text, EnvironmentId};
use crate::model::{views, Environment, EnvironmentView};
use crate::order::{entry_keys, ranked_at, rising, OrderedMap, Ranked};
use crate::path::{
    contains_path, is_safe_relative, joined, lists_path, parts, parts_before, path_texts,
    same_parts, FsPath, PathPart,
};
use crate::platform::guest::{record_path, recorded_as};
use crate::platform::linux::{variable, variable_of, Variable, VariableView};
use crate::text::{decimal, from_chars, number_text, to_chars};

verus! {

/// The tool that constrains what a command may do.
pub const SANDBOX_EXEC: &'static str = "/usr/bin/sandbox-exec";

/// Whether the tool that constrains commands is among the programs of the host.
pub fn available(programs: &Vec<FsPath>) -> (r: bool)
    ensures
        r == lists_path(path_texts(programs@), SANDBOX_EXEC@),
{
    contains_path(programs, &FsPath::new(SANDBOX_EXEC))
}

/// Why no command is run.
pub open spec fn run_refusal(words: nat, is_available: bool, is_root: bool) -> Option<Seq<char>> {
    if words == 0 {
        Some("no command was provided"@)
    } else if !is_available {
        Some(
            "the native macOS rehearsal runtime is unavailable: "@ + SANDBOX_EXEC@ + " is missing"@,
        )
    } else if is_root {
        Some(
            "native macOS rehearsal refuses to execute commands as root; run enter/exec without sudo and reserve sudo for an approved apply"@,
        )
    } else {
        None
    }
}

/// Refuses to run a command where it would not be constrained.
pub fn check_run(words: usize, is_available: bool, is_root: bool) -> (r: Result<(), String>)
    ensures
        match r {
            Ok(()) => run_refusal(words as nat, is_available, is_root) is None,
            Err(e) => run_refusal(words as nat, is_available, is_root) == Some(e@),
        },
{
    if words == 0 {
        Err("no command was provided".to_owned())
    } else if !is_available {
        Err(
            "the native macOS rehearsal runtime is unavailable: ".to_owned().concat(
                SANDBOX_EXEC,
            ).concat(" is missing"),
        )
    } else if is_root {
        Err(
            "native macOS rehearsal refuses to execute commands as root; run enter/exec without sudo and reserve sudo for an approved apply".to_owned(),
        )
    } else {
        Ok(())
    }
}

/// An argument of a command; one that is no text is handed on as it is.
pub enum Argument {
    Text { text: String },
    Raw { bytes: Vec<u8> },
}

#[verifier::ext_equal]
pub enum ArgumentView {
    Text { text: Seq<char> },
    Raw { bytes: Seq<u8> },
}

impl View for Argument {
    type V = ArgumentView;

    open spec fn view(&self) -> ArgumentView {
        match self {
            Argument::Text { text } => ArgumentView::Text { text: text@ },
            Argument::Raw { bytes } => ArgumentView::Raw { bytes: bytes@ },
        }
    }
}

/// An argument with the path in it, if it is one, turned to its candidate file.
pub open spec fn argument_rewritten(
    mappings: Map<Seq<char>, Seq<char>>,
    argument: ArgumentView,
    forms: CanonicalForms,
) -> ArgumentView {
    match argument {
        ArgumentView::Text { text } => ArgumentView::Text {
            text: rewritten(mappings, text, forms),
        },
        ArgumentView::Raw { bytes } => argument,
    }
}

/// Turns the paths in arguments to their candidate files. `forms` holds what the host resolves
/// each argument to.
pub fn rewrite_arguments(
    command: &Vec<Argument>,
    mappings: &Mappings,
    forms: &Vec<CanonicalForms>,
) -> (r: Vec<Argument>)
    requires
        forms.len() == command.len(),
    ensures
        r@.len() == command@.len(),
        forall|i: int|
            0 <= i < r@.len() ==> (#[trigger] r@[i])@ == argument_rewritten(
                mappings@,
                command@[i]@,
                forms@[i],
            ),
{
    let mut r: Vec<Argument> = Vec::new();
    let mut i: usize = 0;
    while i < command.len()
        invariant
            i <= command.len(),
            forms.len() == command.len(),
            r@.len() == i,
            forall|k: int|
                0 <= k < i ==> (#[trigger] r@[k])@ == argument_rewritten(
                    mappings@,
                    command@[k]@,
                    forms@[k],
                ),
        decreases command.len() - i,
    {
        let rewritten_one = match &command[i] {
            Argument::Text { text } => Argument::Text {
                text: rewrite_argument(mappings, text, &forms[i]),
            },
            Argument::Raw { bytes } => Argument::Raw { bytes: crate::diff::copy_bytes(bytes) },
        };
        r.push(rewritten_one);
        i += 1;
    }
    r
}

/// A character as it stands between the quotes of a profile.
pub open spec fn escaped_char(c: char) -> Seq<char> {
    if c == '\\' || c == '"' {
        seq!['\\', c]
    } else {
        seq![c]
    }
}

/// A text as it stands between the quotes of a profile.
pub open spec fn escaped(s: Seq<char>) -> Seq<char>
    decreases s.len(),
{
    if s.len() == 0 {
        Seq::empty()
    } else {
        escaped(s.drop_last()) + escaped_char(s.last())
    }
}

fn escape(s: &str) -> (r: String)
    ensures
        r@ == escaped(s@),
{
    let chars = to_chars(s);
    let mut r: Vec<char> = Vec::new();
    let mut i: usize = 0;
    while i < chars.len()
        invariant
            i <= chars.len(),
            chars@ == s@,
            r@ == escaped(chars@.take(i as int)),
        decreases chars.len() - i,
    {
        let ghost before = r@;
        let c = chars[i];
        proof {
            assert(chars@.take(i + 1).drop_last() =~= chars@.take(i as int));
            assert(chars@.take(i + 1).last() == c);
        }
        if c == '\\' || c == '"' {
            r.push('\\');
        }
        r.push(c);
        assert(r@ =~= before + escaped_char(c));
        i += 1;
    }
    assert(chars@.take(chars.len() as int) =~= chars@);
    let n = r.len();
    assert(r@.subrange(0, n as int) =~= r@);
    from_chars(&r, 0, n)
}

/// What is allowed to a command: it may read, and write below the workspace alone.
pub open spec fn profile(workspace: Seq<char>) -> Seq<char> {
    "(version 1)(deny default)(allow file-read*)(allow file-write-data (literal \"/dev/null\"))(allow process*)(allow signal)(allow sysctl-read)(allow mach-lookup)(allow network-inbound network-outbound)(allow file-write* (subpath \""@
        + escaped(workspace) + "\"))"@
}

/// The profile that constrains a command to a workspace, which is given as the host resolves it.
pub fn sandbox_profile(workspace: &str) -> (r: String)
    ensures
        r@ == profile(workspace@),
{
    "(version 1)(deny default)(allow file-read*)(allow file-write-data (literal \"/dev/null\"))(allow process*)(allow signal)(allow sysctl-read)(allow mach-lookup)(allow network-inbound network-outbound)(allow file-write* (subpath \"".to_owned().concat(
        escape(workspace).as_str(),
    ).concat("\"))")
}

/// What is read of a quoted text up to its closing quote, and what follows the quote; none where
/// the quote is missing.
pub open spec fn read_quoted(s: Seq<char>) -> Option<(Seq<char>, Seq<char>)>
    decreases s.len(),
{
    if s.len() == 0 {
        None
    } else if s[0] == '"' {
        Some((Seq::empty(), s.skip(1)))
    } else if s[0] == '\\' {
        if s.len() == 1 {
            None
        } else {
            match read_quoted(s.skip(2)) {
                Some((text, rest)) => Some((seq![s[1]] + text, rest)),
                None => None,
            }
        }
    } else {
        match read_quoted(s.skip(1)) {
            Some((text, rest)) => Some((seq![s[0]] + text, rest)),
            None => None,
        }
    }
}

proof fn lemma_escaped_front(s: Seq<char>)
    requires
        s.len() > 0,
    ensures
        escaped(s) == escaped_char(s[0]) + escaped(s.skip(1)),
    decreases s.len(),
{
    if s.len() == 1 {
        assert(s.drop_last() =~= Seq::empty());
        assert(s.skip(1) =~= Seq::empty());
        assert(escaped(s) =~= escaped_char(s[0]) + escaped(s.skip(1)));
    } else {
        lemma_escaped_front(s.drop_last());
        assert(s.drop_last().skip(1) =~= s.skip(1).drop_last());
        assert(escaped(s) =~= escaped_char(s[0]) + escaped(s.skip(1)));
    }
}

/// A profile names the workspace and nothing else: whatever characters the workspace has, what is
/// read between the quotes is the workspace, and the rest of the profile follows.
pub proof fn law_profiles_name_the_workspace(workspace: Seq<char>, rest: Seq<char>)
    ensures
        read_quoted(escaped(workspace) + "\""@ + rest) == Some((workspace, rest)),
    decreases workspace.len(),
{
    reveal_strlit("\"");
    let all = escaped(workspace) + "\""@ + rest;
    if workspace.len() == 0 {
        assert(escaped(workspace) =~= Seq::empty());
        assert(all[0] == '"');
        assert(all.skip(1) =~= rest);
        assert(workspace =~= Seq::empty());
    } else {
        let c = workspace[0];
        let tail = workspace.skip(1);
        lemma_escaped_front(workspace);
        law_profiles_name_the_workspace(tail, rest);
        let after = escaped(tail) + "\""@ + rest;
        assert(seq![c] + tail =~= workspace);
        if c == '\\' || c == '"' {
            assert(all =~= seq!['\\', c] + after);
            assert(all[0] == '\\' && all[1] == c);
            assert(all.skip(2) =~= after);
        } else {
            assert(all =~= seq![c] + after);
            assert(all[0] == c);
            assert(all.skip(1) =~= after);
        }
    }
}

/// The directories of a workspace.
pub struct Workspace {
    pub path: FsPath,
    pub candidate_root: FsPath,
    pub control: FsPath,
    pub temporary: FsPath,
}

#[verifier::ext_equal]
pub struct WorkspaceView {
    pub path: Seq<char>,
    pub candidate_root: Seq<char>,
    pub control: Seq<char>,
    pub temporary: Seq<char>,
}

impl View for Workspace {
    type V = WorkspaceView;

    open spec fn view(&self) -> WorkspaceView {
        WorkspaceView {
            path: self.path@,
            candidate_root: self.candidate_root@,
            control: self.control@,
            temporary: self.temporary@,
        }
    }
}

/// The workspace of an environment for one command.
pub open spec fn workspace_of(
    id: Seq<u8>,
    temporary: Seq<char>,
    process: nat,
    unique: Seq<u8>,
) -> WorkspaceView {
    let path = joined(
        temporary,
        "netsandbox-native-"@ + hex_text(id) + "-"@ + decimal(process) + "-"@ + hex_text(unique),
    );
    WorkspaceView {
        path,
        candidate_root: joined(path, "candidate"@),
        control: joined(path, "control"@),
        temporary: joined(path, "tmp"@),
    }
}

impl Workspace {
    /// Where the workspace of an environment goes. `unique` tells the commands of a process apart.
    pub fn create_as(
        environment: &Environment,
        temporary: &FsPath,
        process: u32,
        unique: &EnvironmentId,
    ) -> (r: Workspace)
        ensures
            r@ == workspace_of(environment@.id, temporary@, process as nat, unique@),
    {
        let name = "netsandbox-native-".to_owned().concat(
            crate::identity::simple_text(&environment.id).as_str(),
        ).concat("-").concat(number_text(process as u64).as_str()).concat("-").concat(
            crate::identity::simple_text(unique).as_str(),
        );
        let path = temporary.join(name.as_str());
        Workspace {
            candidate_root: path.join("candidate"),
            control: path.join("control"),
            temporary: path.join("tmp"),
            path,
        }
    }

    /// Where the workspace of an environment goes. Each command gets one with a random name.
    pub fn create(environment: &Environment, temporary: &FsPath, process: u32) -> (r: Workspace)
        ensures
            exists|unique: Seq<u8>|
                unique.len() == 16 && r@ == #[trigger] workspace_of(
                    environment@.id,
                    temporary@,
                    process as nat,
                    unique,
                ),
    {
        let unique = crate::identity::random_id();
        Workspace::create_as(environment, temporary, process, &unique)
    }
}

/// What puts a candidate file into place.
pub enum CandidateStep {
    Copy { source: FsPath, candidate: FsPath },
    /// The file is deleted; only the directory that it would be in is made.
    MakeParent { candidate: FsPath },
}

#[verifier::ext_equal]
pub enum CandidateStepView {
    Copy { source: Seq<char>, candidate: Seq<char> },
    MakeParent { candidate: Seq<char> },
}

impl View for CandidateStep {
    type V = CandidateStepView;

    open spec fn view(&self) -> CandidateStepView {
        match self {
            CandidateStep::Copy { source, candidate } => CandidateStepView::Copy {
                source: source@,
                candidate: candidate@,
            },
            CandidateStep::MakeParent { candidate } => CandidateStepView::MakeParent {
                candidate: candidate@,
            },
        }
    }
}

/// The candidate files of a workspace: how they get there, and the host paths that they stand for.
pub struct CandidatePlan {
    pub steps: Vec<CandidateStep>,
    pub mappings: Mappings,
}

#[verifier::ext_equal]
pub struct CandidatePlanView {
    pub steps: Seq<CandidateStepView>,
    pub mappings: Map<Seq<char>, Seq<char>>,
}

impl View for CandidatePlan {
    type V = CandidatePlanView;

    open spec fn view(&self) -> CandidatePlanView {
        CandidatePlanView { steps: views(self.steps@), mappings: self.mappings@ }
    }
}

/// The mappings with those of one more path.
pub open spec fn with_mapping(
    mappings: Map<Seq<char>, Seq<char>>,
    base_root: Seq<char>,
    relative: Seq<char>,
    candidate: Seq<char>,
) -> Map<Seq<char>, Seq<char>> {
    let one = mappings.insert(joined(base_root, relative), candidate);
    if same_parts(base_root, "/"@) {
        one.insert("/"@ + relative, candidate)
    } else {
        one
    }
}

/// What the first `n` staged paths come to. `present` says which of them have a staged file.
pub open spec fn candidates_upto(
    environment: EnvironmentView,
    staged: Seq<Seq<char>>,
    present: Seq<bool>,
    upper: Seq<char>,
    candidate_root: Seq<char>,
    n: int,
) -> Result<CandidatePlanView, Seq<char>>
    decreases n,
{
    if n <= 0 {
        Ok(CandidatePlanView { steps: Seq::empty(), mappings: Map::empty() })
    } else {
        match candidates_upto(environment, staged, present, upper, candidate_root, n - 1) {
            Err(e) => Err(e),
            Ok(plan) => {
                let relative = staged[n - 1];
                let candidate = joined(candidate_root, relative);
                if !is_safe_relative(relative) {
                    Err(unsafe_path_message(relative))
                } else if !lists_path(environment.deleted_paths, relative) && !present[n - 1] {
                    Err(
                        "staged path /"@ + relative
                            + " has no candidate file; restage it before native execution"@,
                    )
                } else {
                    Ok(
                        CandidatePlanView {
                            steps: plan.steps.push(
                                if lists_path(environment.deleted_paths, relative) {
                                    CandidateStepView::MakeParent { candidate }
                                } else {
                                    CandidateStepView::Copy {
                                        source: joined(upper, relative),
                                        candidate,
                                    }
                                },
                            ),
                            mappings: with_mapping(
                                plan.mappings,
                                environment.base_root,
                                relative,
                                candidate,
                            ),
                        },
                    )
                }
            },
        }
    }
}

proof fn lemma_candidates_keep_failing(
    environment: EnvironmentView,
    staged: Seq<Seq<char>>,
    present: Seq<bool>,
    upper: Seq<char>,
    candidate_root: Seq<char>,
    n: int,
    m: int,
)
    requires
        n <= m,
        candidates_upto(environment, staged, present, upper, candidate_root, n) is Err,
    ensures
        candidates_upto(environment, staged, present, upper, candidate_root, m)
            == candidates_upto(environment, staged, present, upper, candidate_root, n),
    decreases m - n,
{
    if n < m {
        lemma_candidates_keep_failing(
            environment,
            staged,
            present,
            upper,
            candidate_root,
            n,
            m - 1,
        );
    }
}

/// Whether a list holds the paths of a map, each as it is written there, in order.
pub open spec fn lists_in_order(
    list: Seq<Seq<char>>,
    paths: Map<Seq<PathPart>, Seq<char>>,
) -> bool {
    &&& forall|i: int|
        0 <= i < list.len() ==> paths.dom().contains(parts(#[trigger] list[i]))
            && paths[parts(list[i])] == list[i]
    &&& forall|k: Seq<PathPart>| #[trigger]
        paths.dom().contains(k) ==> exists|i: int|
            0 <= i < list.len() && parts(#[trigger] list[i]) == k
    &&& forall|i: int, j: int|
        0 <= i < j < list.len() ==> parts_before(
            parts(#[trigger] list[i]),
            parts(#[trigger] list[j]),
        )
}

/// The staged paths of an environment, in order.
pub fn staged_paths(environment: &Environment) -> (r: Vec<FsPath>)
    ensures
        lists_in_order(path_texts(r@), environment@.origin_paths),
{
    let count = environment.origins.len();
    let ghost keys = entry_keys(environment.origins.entry_seq());
    let mut r: Vec<FsPath> = Vec::new();
    let mut i: usize = 0;
    while i < count
        invariant
            i <= count,
            count == environment.origins.entry_seq().len(),
            keys == entry_keys(environment.origins.entry_seq()),
            rising(keys),
            r@.len() == i,
            forall|k: int| 0 <= k < i ==> (#[trigger] r@[k])@ == keys[k]@,
            forall|k: int|
                0 <= k < i ==> environment@.origin_paths.dom().contains(
                    parts((#[trigger] r@[k])@),
                ) && environment@.origin_paths[parts(r@[k]@)] == r@[k]@,
        decreases count - i,
    {
        r.push(environment.origins.key_at(i).copy());
        i += 1;
    }
    proof {
        let list = path_texts(r@);
        let paths = environment@.origin_paths;
        assert forall|i: int| 0 <= i < list.len() implies paths.dom().contains(
            parts(#[trigger] list[i]),
        ) && paths[parts(list[i])] == list[i] by {
            assert(list[i] == r@[i]@);
        }
        assert forall|k: Seq<PathPart>| #[trigger] paths.dom().contains(k) implies exists|i: int|
            0 <= i < list.len() && parts(#[trigger] list[i]) == k by {
            assert(environment.origins.keys().dom().contains(k));
            let i = choose|i: int| ranked_at(keys, k, i);
            assert(list[i] == keys[i]@);
        }
        assert forall|i: int, j: int| 0 <= i < j < list.len() implies parts_before(
            parts(#[trigger] list[i]),
            parts(#[trigger] list[j]),
        ) by {
            assert(FsPath::rank_before(keys[i].rank(), keys[j].rank()));
        }
    }
    r
}

/// Plans the candidate files of a workspace. `present` says which of the staged paths have a file
/// in the writable layer `upper`.
pub fn materialize_candidates(
    environment: &Environment,
    staged: &Vec<FsPath>,
    present: &Vec<bool>,
    upper: &FsPath,
    candidate_root: &FsPath,
) -> (r: Result<CandidatePlan, String>)
    requires
        present.len() == staged.len(),
    ensures
        match r {
            Ok(plan) => candidates_upto(
                environment@,
                path_texts(staged@),
                present@,
                upper@,
                candidate_root@,
                staged@.len() as int,
            ) == Ok::<CandidatePlanView, Seq<char>>(plan@),
            Err(e) => candidates_upto(
                environment@,
                path_texts(staged@),
                present@,
                upper@,
                candidate_root@,
                staged@.len() as int,
            ) == Err::<CandidatePlanView, Seq<char>>(e@),
        },
{
    let ghost all = path_texts(staged@);
    let on_root = environment.base_root.same(&FsPath::new("/"));
    let mut plan = CandidatePlan { steps: Vec::new(), mappings: OrderedMap::new() };
    assert(plan@.steps =~= Seq::empty());
    let mut i: usize = 0;
    while i < staged.len()
        invariant
            i <= staged.len(),
            present.len() == staged.len(),
            all == path_texts(staged@),
            on_root == same_parts(environment@.base_root, "/"@),
            candidates_upto(
                environment@,
                all,
                present@,
                upper@,
                candidate_root@,
                i as int,
            ) == Ok::<CandidatePlanView, Seq<char>>(plan@),
        decreases staged.len() - i,
    {
        let relative = &staged[i];
        assert(all[i as int] == relative@);
        match validate_relative_path(relative) {
            Err(e) => {
                proof {
                    lemma_candidates_keep_failing(
                        environment@,
                        all,
                        present@,
                        upper@,
                        candidate_root@,
                        i + 1,
                        staged@.len() as int,
                    );
                }
                return Err(e);
            },
            Ok(()) => {},
        }
        let candidate = candidate_root.join(relative.text.as_str());
        let deleted = contains_path(&environment.deleted_paths, relative);
        if !deleted && !present[i] {
            proof {
                lemma_candidates_keep_failing(
                    environment@,
                    all,
                    present@,
                    upper@,
                    candidate_root@,
                    i + 1,
                    staged@.len() as int,
                );
            }
            return Err(
                "staged path /".to_owned().concat(relative.text.as_str()).concat(
                    " has no candidate file; restage it before native execution",
                ),
            );
        }
        let step = if deleted {
            CandidateStep::MakeParent { candidate: candidate.copy() }
        } else {
            CandidateStep::Copy {
                source: upper.join(relative.text.as_str()),
                candidate: candidate.copy(),
            }
        };
        let ghost before = plan@.steps;
        plan.steps.push(step);
        assert(plan@.steps =~= before.push(step@));
        let host = environment.base_root.join(relative.text.as_str());
        plan.mappings.insert(host.text, candidate.text.clone());
        if on_root {
            plan.mappings.insert(
                "/".to_owned().concat(relative.text.as_str()),
                candidate.text.clone(),
            );
        }
        i += 1;
    }
    Ok(plan)
}

/// The first path that is not among the expected ones.
pub open spec fn first_unexpected(
    entries: Seq<Seq<char>>,
    expected: Seq<Seq<char>>,
) -> Option<Seq<char>>
    decreases entries.len(),
{
    if entries.len() == 0 {
        None
    } else {
        match first_unexpected(entries.drop_last(), expected) {
            Some(path) => Some(path),
            None => if lists_path(expected, entries.last()) {
                None
            } else {
                Some(entries.last())
            },
        }
    }
}

proof fn lemma_unexpected_stays(entries: Seq<Seq<char>>, expected: Seq<Seq<char>>, n: int)
    requires
        0 <= n <= entries.len(),
        first_unexpected(entries.take(n), expected) is Some,
    ensures
        first_unexpected(entries, expected) == first_unexpected(entries.take(n), expected),
    decreases entries.len() - n,
{
    if n < entries.len() {
        assert(entries.take(n + 1).drop_last() =~= entries.take(n));
        lemma_unexpected_stays(entries, expected, n + 1);
    } else {
        assert(entries.take(n) =~= entries);
    }
}

/// Refuses what a command left behind at a path that was not staged. `entries` are the paths of
/// the files below the candidate root.
pub fn reject_untracked_entries(entries: &Vec<FsPath>, expected: &Vec<FsPath>) -> (r: Result<
    (),
    String,
>)
    ensures
        match r {
            Ok(()) => first_unexpected(path_texts(entries@), path_texts(expected@)) is None,
            Err(e) => first_unexpected(path_texts(entries@), path_texts(expected@)) matches Some(
                path,
            ) && e@ == "native command created undeclared candidate /"@ + path
                + "; stage that exact path before retrying"@,
        },
{
    let ghost all = path_texts(entries@);
    let mut i: usize = 0;
    while i < entries.len()
        invariant
            i <= entries.len(),
            all == path_texts(entries@),
            first_unexpected(all.take(i as int), path_texts(expected@)) is None,
        decreases entries.len() - i,
    {
        proof {
            assert(all.take(i + 1).drop_last() =~= all.take(i as int));
            assert(all.take(i + 1).last() == entries@[i as int]@);
        }
        if !contains_path(expected, &entries[i]) {
            proof {
                lemma_unexpected_stays(all, path_texts(expected@), i + 1);
            }
            return Err(
                "native command created undeclared candidate /".to_owned().concat(
                    entries[i].text.as_str(),
                ).concat("; stage that exact path before retrying"),
            );
        }
        i += 1;
    }
    assert(all.take(entries.len() as int) =~= all);
    Ok(())
}

/// What takes a candidate file over into the writable layer.
pub enum TakeOverStep {
    Replace { source: FsPath, destination: FsPath },
    Remove { destination: FsPath },
}

#[verifier::ext_equal]
pub enum TakeOverStepView {
    Replace { source: Seq<char>, destination: Seq<char> },
    Remove { destination: Seq<char> },
}

impl View for TakeOverStep {
    type V = TakeOverStepView;

    open spec fn view(&self) -> TakeOverStepView {
        match self {
            TakeOverStep::Replace { source, destination } => TakeOverStepView::Replace {
                source: source@,
                destination: destination@,
            },
            TakeOverStep::Remove { destination } => TakeOverStepView::Remove {
                destination: destination@,
            },
        }
    }
}

/// How the first `n` candidate files are taken over. `present` says which of them are there.
pub open spec fn take_over_steps(
    expected: Seq<Seq<char>>,
    present: Seq<bool>,
    candidate_root: Seq<char>,
    upper: Seq<char>,
) -> Seq<TakeOverStepView> {
    Seq::new(
        expected.len(),
        |i: int|
            if present[i] {
                TakeOverStepView::Replace {
                    source: joined(candidate_root, expected[i]),
                    destination: joined(upper, expected[i]),
                }
            } else {
                TakeOverStepView::Remove { destination: joined(upper, expected[i]) }
            },
    )
}

/// The environment with the first `n` candidate files recorded as there or as deleted.
pub open spec fn taken_over(
    environment: EnvironmentView,
    expected: Seq<Seq<char>>,
    present: Seq<bool>,
    n: int,
) -> EnvironmentView
    decreases n,
{
    if n <= 0 {
        environment
    } else {
        recorded_as(
            taken_over(environment, expected, present, n - 1),
            expected[n - 1],
            !present[n - 1],
        )
    }
}

/// Takes the candidate files of a workspace over: gives the steps for the files, and records in
/// the environment which of them are deleted. `at` is the time at which this is done.
pub fn sync_candidates(
    current: &mut Environment,
    expected: &Vec<FsPath>,
    present: &Vec<bool>,
    candidate_root: &FsPath,
    upper: &FsPath,
    at: Timestamp,
) -> (r: Result<Vec<TakeOverStep>, String>)
    requires
        present.len() == expected.len(),
    ensures
        match r {
            Ok(steps) => {
                &&& forall|i: int|
                    0 <= i < expected@.len() ==> is_safe_relative(#[trigger] expected@[i]@)
                &&& views(steps@) == take_over_steps(
                    path_texts(expected@),
                    present@,
                    candidate_root@,
                    upper@,
                )
                &&& final(current)@ == (EnvironmentView {
                    updated_at: at,
                    ..taken_over(
                        old(current)@,
                        path_texts(expected@),
                        present@,
                        expected@.len() as int,
                    )
                })
            },
            Err(e) => final(current)@ == old(current)@ && exists|i: int|
                0 <= i < expected@.len() && !is_safe_relative(#[trigger] expected@[i]@) && e@
                    == unsafe_path_message(expected@[i]@) && (forall|k: int|
                    0 <= k < i ==> is_safe_relative(#[trigger] expected@[k]@)),
        },
{
    let ghost start = current@;
    let ghost all = path_texts(expected@);
    let ghost want = take_over_steps(all, present@, candidate_root@, upper@);
    let mut steps: Vec<TakeOverStep> = Vec::new();
    let mut i: usize = 0;
    while i < expected.len()
        invariant
            i <= expected.len(),
            present.len() == expected.len(),
            all == path_texts(expected@),
            want == take_over_steps(all, present@, candidate_root@, upper@),
            steps@.len() == i,
            forall|k: int| 0 <= k < i ==> (#[trigger] steps@[k])@ == want[k],
            forall|k: int| 0 <= k < i ==> is_safe_relative(#[trigger] expected@[k]@),
            current@ == start,
        decreases expected.len() - i,
    {
        let relative = &expected[i];
        assert(all[i as int] == relative@);
        match validate_relative_path(relative) {
            Err(e) => return Err(e),
            Ok(()) => {},
        }
        let destination = upper.join(relative.text.as_str());
        if present[i] {
            steps.push(
                TakeOverStep::Replace {
                    source: candidate_root.join(relative.text.as_str()),
                    destination,
                },
            );
        } else {
            steps.push(TakeOverStep::Remove { destination });
        }
        i += 1;
    }
    let mut k: usize = 0;
    while k < expected.len()
        invariant
            k <= expected.len(),
            present.len() == expected.len(),
            all == path_texts(expected@),
            current@ == taken_over(start, all, present@, k as int),
        decreases expected.len() - k,
    {
        assert(all[k as int] == expected@[k as int]@);
        record_path(current, &expected[k], !present[k]);
        k += 1;
    }
    current.updated_at = at;
    assert(views(steps@) =~= want);
    Ok(steps)
}

/// The variables that a command in a workspace finds.
pub open spec fn native_variables_of(
    name: Seq<char>,
    workspace: WorkspaceView,
    mappings: Seq<char>,
) -> Seq<VariableView> {
    seq![
        variable_of("NETSANDBOX_ACTIVE"@, name),
        variable_of("NETSANDBOX_RUNTIME"@, "macos-native"@),
        variable_of("NETSANDBOX_ROOT"@, workspace.candidate_root),
        variable_of("NETSANDBOX_CANDIDATE_ROOT"@, workspace.candidate_root),
        variable_of("NETSANDBOX_CANDIDATE_MAP"@, mappings),
        variable_of("NETSANDBOX_CONTROL"@, workspace.control),
        variable_of("TMPDIR"@, workspace.temporary),
        variable_of("PS1"@, "[nsb:"@ + name + "] \\w \\$ "@),
    ]
}

/// The variables that a command in a workspace finds. `mappings` is the text of the mappings.
pub fn native_variables(name: &str, workspace: &Workspace, mappings: &str) -> (r: Vec<Variable>)
    ensures
        views(r@) == native_variables_of(name@, workspace@, mappings@),
{
    let prompt = "[nsb:".to_owned().concat(name).concat("] \\w \\$ ");
    let r = vec![
        variable("NETSANDBOX_ACTIVE", name),
        variable("NETSANDBOX_RUNTIME", "macos-native"),
        variable("NETSANDBOX_ROOT", workspace.candidate_root.text.as_str()),
        variable("NETSANDBOX_CANDIDATE_ROOT", workspace.candidate_root.text.as_str()),
        variable("NETSANDBOX_CANDIDATE_MAP", mappings),
        variable("NETSANDBOX_CONTROL", workspace.control.text.as_str()),
        variable("TMPDIR", workspace.temporary.text.as_str()),
        variable("PS1", prompt.as_str()),
    ];
    assert(views(r@) =~= native_variables_of(name@, workspace@, mappings@));
    r
}

/// The exit code of a command: its own, or one that tells the signal that ended it.
pub fn exit_code(code: Option<i32>, signal: Option<i32>) -> (r: i32)
    requires
        signal matches Some(s) ==> s <= 0x7fff_ff7f,
    ensures
        r == match code {
            Some(c) => c as int,
            None => 128 + match signal {
                Some(s) => s as int,
                None => 1,
            },
        },
{
    match code {
        Some(c) => c,
        None => match signal {
            Some(s) => 128 + s,
            None => 129,
        },
    }
}

} // verus!
