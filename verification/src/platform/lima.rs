//! Sandboxes in a macOS virtual machine.
use vstd::prelude::*;

use crate::command::{ensure_success, failure_message, CommandOutput};
use crate::identity::{short_id, short_text};
use crate::model::{views, DoctorCheck, DoctorCheckView, Environment, EnvironmentView};
use crate::path::FsPath;
use crate::platform::docker::{metadata, read_mode, record, recorded, reported_mode};
use crate::platform::guest::{guest_directory, guest_directory_of, guest_program};
use crate::platform::linux::{check, check_of};
use crate::script::{ScriptShape, ScriptStep};
use crate::text::{
    alphanumeric, append_texts, arguments, is_ascii_alphanumeric, option_is, parse_unsigned, pieces,
    same_text, split, texts, to_chars, trim, trimmed, unsigned, Separator,
};

verus! {

pub const VM_INSTANCE_KEY: &'static str = "mac_vm_instance";

pub const VM_MANAGED_KEY: &'static str = "mac_vm_managed";

pub const VM_BASE_KEY: &'static str = "mac_vm_base";

/// Whether an environment runs in a virtual machine.
pub open spec fn in_machine(environment: EnvironmentView) -> bool {
    environment.metadata.dom().contains(VM_INSTANCE_KEY@)
}

pub fn has_vm(environment: &Environment) -> (r: bool)
    ensures
        r == in_machine(environment@),
{
    environment.metadata.contains(&VM_INSTANCE_KEY.to_owned())
}

/// What an environment without a virtual machine is refused with.
pub open spec fn no_machine(name: Seq<char>) -> Seq<char> {
    "environment '"@ + name + "' has no isolated macOS VM; use 'netsandbox mac vm-clone "@ + name
        + " BASE_INSTANCE' or 'vm-attach'"@
}

/// The virtual machine of an environment.
pub fn vm_instance(environment: &Environment) -> (r: Result<String, String>)
    ensures
        match r {
            Ok(instance) => recorded(environment@, VM_INSTANCE_KEY@) == Some(instance@),
            Err(e) => recorded(environment@, VM_INSTANCE_KEY@) is None && e@ == no_machine(
                environment@.name,
            ),
        },
{
    match metadata(environment, VM_INSTANCE_KEY) {
        Some(instance) => Ok(instance),
        None => Err(
            "environment '".to_owned().concat(environment.name.as_str()).concat(
                "' has no isolated macOS VM; use 'netsandbox mac vm-clone ",
            ).concat(environment.name.as_str()).concat(" BASE_INSTANCE' or 'vm-attach'"),
        ),
    }
}

/// Whether a piece of a version report can hold the version: it starts with a digit.
pub open spec fn is_version(piece: Seq<char>) -> bool {
    piece.len() > 0 && piece[0] != '.'
}

/// The first piece of a report that can hold the version.
pub open spec fn first_version(all: Seq<Seq<char>>) -> Option<Seq<char>>
    decreases all.len(),
{
    if all.len() == 0 {
        None
    } else {
        match first_version(all.drop_last()) {
            Some(piece) => Some(piece),
            None => if is_version(all.last()) {
                Some(all.last())
            } else {
                None
            },
        }
    }
}

/// The number at a position of a version; one that is missing or too large counts as zero.
pub open spec fn version_number(version: Seq<char>, i: int) -> nat {
    let all = pieces(version, Separator::Char('.'));
    if i < all.len() {
        match unsigned(all[i], 10, 18_446_744_073_709_551_615) {
            Some(n) => n,
            None => 0,
        }
    } else {
        0
    }
}

/// Whether a version is at least 2.1.
pub open spec fn is_supported(version: Seq<char>) -> bool {
    version_number(version, 0) > 2 || (version_number(version, 0) == 2 && version_number(version, 1)
        >= 1)
}

/// Why a version of Lima is refused.
pub open spec fn lima_refusal(text: Seq<char>) -> Option<Seq<char>> {
    match first_version(pieces(text, Separator::NotNumeric)) {
        None => Some("could not parse Lima version"@),
        Some(version) => if is_supported(version) {
            None
        } else {
            Some("Lima 2.1 or newer is required; found "@ + trimmed(text))
        },
    }
}

proof fn lemma_first_version_stays(all: Seq<Seq<char>>, n: int)
    requires
        0 <= n <= all.len(),
        first_version(all.take(n)) is Some,
    ensures
        first_version(all) == first_version(all.take(n)),
    decreases all.len() - n,
{
    if n < all.len() {
        assert(all.take(n + 1).drop_last() =~= all.take(n));
        lemma_first_version_stays(all, n + 1);
    } else {
        assert(all.take(n) =~= all);
    }
}

fn find_version(text: &str) -> (r: Option<String>)
    ensures
        crate::text::opt_text(r) == first_version(pieces(text@, Separator::NotNumeric)),
{
    let all = split(text, Separator::NotNumeric);
    let ghost every = texts(all@);
    let mut i: usize = 0;
    while i < all.len()
        invariant
            i <= all.len(),
            every == texts(all@),
            every == pieces(text@, Separator::NotNumeric),
            first_version(every.take(i as int)) is None,
        decreases all.len() - i,
    {
        proof {
            assert(every.take(i + 1).drop_last() =~= every.take(i as int));
            assert(every.take(i + 1).last() == all@[i as int]@);
        }
        let chars = to_chars(all[i].as_str());
        if chars.len() > 0 && chars[0] != '.' {
            proof {
                lemma_first_version_stays(every, i + 1);
            }
            return Some(all[i].clone());
        }
        i += 1;
    }
    assert(every.take(all.len() as int) =~= every);
    None
}

fn version_part(all: &Vec<String>, i: usize) -> (r: u64)
    ensures
        r == if i < all@.len() {
            match unsigned(all@[i as int]@, 10, 18_446_744_073_709_551_615) {
                Some(n) => n,
                None => 0,
            }
        } else {
            0
        },
{
    if i < all.len() {
        match parse_unsigned(all[i].as_str(), 10, 18_446_744_073_709_551_615) {
            Some(n) => n,
            None => 0,
        }
    } else {
        0
    }
}

/// Refuses a version of Lima that is too old, or a report that names none.
pub fn require_lima_version(text: &str) -> (r: Result<(), String>)
    ensures
        match r {
            Ok(()) => lima_refusal(text@) is None,
            Err(e) => lima_refusal(text@) == Some(e@),
        },
{
    let version = match find_version(text) {
        None => return Err("could not parse Lima version".to_owned()),
        Some(version) => version,
    };
    let all = split(version.as_str(), Separator::Char('.'));
    assert(texts(all@) == pieces(version@, Separator::Char('.')));
    let major = version_part(&all, 0);
    let minor = version_part(&all, 1);
    proof {
        if all@.len() > 0 {
            assert(texts(all@)[0] == all@[0]@);
        }
        if all@.len() > 1 {
            assert(texts(all@)[1] == all@[1]@);
        }
    }
    if major > 2 || (major == 2 && minor >= 1) {
        Ok(())
    } else {
        Err("Lima 2.1 or newer is required; found ".to_owned().concat(trim(text).as_str()))
    }
}

/// Refuses the Lima that gave the output.
pub fn verify_lima_version(output: &CommandOutput) -> (r: Result<(), String>)
    ensures
        match r {
            Ok(()) => output.succeeded() && lima_refusal(output.output_text()) is None,
            Err(e) => if output.succeeded() {
                lima_refusal(output.output_text()) == Some(e@)
            } else {
                e@ == failure_message("inspect Lima version"@, output.error_text())
            },
        },
{
    match ensure_success(output, "inspect Lima version") {
        Err(e) => Err(e),
        Ok(()) => require_lima_version(output.stdout_text().as_str()),
    }
}

/// Whether a character may stand in the name of a virtual machine.
pub open spec fn in_machine_name(c: char) -> bool {
    is_ascii_alphanumeric(c) || c == '-' || c == '_' || c == '.'
}

/// Whether a text can name a virtual machine.
pub open spec fn is_machine_name(name: Seq<char>) -> bool {
    0 < name.len() <= 64 && forall|i: int|
        0 <= i < name.len() ==> in_machine_name(#[trigger] name[i])
}

/// Refuses a text that cannot name a virtual machine.
pub fn validate_vm_name(instance: &str) -> (r: Result<(), String>)
    ensures
        r is Ok <==> is_machine_name(instance@),
        r matches Err(e) ==> e@ == "invalid Lima instance name"@,
{
    let chars = to_chars(instance);
    let mut ok = 0 < chars.len() && chars.len() <= 64;
    let mut i: usize = 0;
    while i < chars.len()
        invariant
            i <= chars.len(),
            chars@ == instance@,
            ok == (0 < chars@.len() <= 64 && forall|k: int|
                0 <= k < i ==> in_machine_name(#[trigger] chars@[k])),
        decreases chars.len() - i,
    {
        let c = chars[i];
        if !(alphanumeric(c) || c == '-' || c == '_' || c == '.') {
            ok = false;
        }
        i += 1;
    }
    if ok {
        Ok(())
    } else {
        Err("invalid Lima instance name".to_owned())
    }
}

/// Why an instance is refused as a guest, by what it said of its system.
pub open spec fn guest_refusal(instance: Seq<char>, output: CommandOutput) -> Option<Seq<char>> {
    if !output.succeeded() {
        Some(failure_message("inspect Lima guest operating system"@, output.error_text()))
    } else if trimmed(output.output_text()) != "Darwin"@ {
        Some("Lima instance '"@ + instance + "' is not a macOS guest"@)
    } else {
        None
    }
}

/// Refuses an instance that does not run macOS.
pub fn verify_macos_guest(instance: &str, output: &CommandOutput) -> (r: Result<(), String>)
    ensures
        match r {
            Ok(()) => guest_refusal(instance@, *output) is None,
            Err(e) => guest_refusal(instance@, *output) == Some(e@),
        },
{
    match ensure_success(output, "inspect Lima guest operating system") {
        Err(e) => return Err(e),
        Ok(()) => {},
    }
    if same_text(output.trimmed_stdout().as_str(), "Darwin") {
        Ok(())
    } else {
        Err("Lima instance '".to_owned().concat(instance).concat("' is not a macOS guest"))
    }
}

/// The permissions of a file of a virtual machine.
pub fn guest_file_mode(output: &CommandOutput) -> (r: Result<u32, String>)
    ensures
        match r {
            Ok(mode) => reported_mode(
                *output,
                "macOS VM file permissions"@,
                failure_message("inspect macOS VM file permissions"@, output.error_text()),
            ) == Ok::<nat, Seq<char>>(mode as nat),
            Err(e) => reported_mode(
                *output,
                "macOS VM file permissions"@,
                failure_message("inspect macOS VM file permissions"@, output.error_text()),
            ) == Err::<nat, Seq<char>>(e@),
        },
{
    match ensure_success(output, "inspect macOS VM file permissions") {
        Err(e) => return Err(e),
        Ok(()) => {},
    }
    read_mode(output, "macOS VM file permissions")
}

/// The virtual machine that an environment gets by cloning.
pub open spec fn machine_of(id: Seq<u8>) -> Seq<char> {
    "nsb-"@ + short_id(id, 12)
}

pub fn expected_instance(environment: &Environment) -> (r: String)
    ensures
        r@ == machine_of(environment@.id),
{
    "nsb-".to_owned().concat(short_text(&environment.id, 12).as_str())
}

/// Refuses a virtual machine for an environment that cannot have it.
pub fn check_new_vm(environment: &Environment, instance: &str) -> (r: Result<(), String>)
    ensures
        r is Ok <==> is_machine_name(instance@) && !in_machine(environment@),
        r matches Err(e) ==> e@ == if !is_machine_name(instance@) {
            "invalid Lima instance name"@
        } else {
            "environment '"@ + environment@.name + "' already has a macOS VM backend"@
        },
{
    match validate_vm_name(instance) {
        Err(e) => return Err(e),
        Ok(()) => {},
    }
    if has_vm(environment) {
        return Err(
            "environment '".to_owned().concat(environment.name.as_str()).concat(
                "' already has a macOS VM backend",
            ),
        );
    }
    Ok(())
}

/// What is done to a virtual machine.
pub enum VmStep {
    CheckVersion,
    CheckGuest { instance: String },
    Delete { instance: String },
    Clone { base: String, instance: String },
}

#[verifier::ext_equal]
pub enum VmStepView {
    CheckVersion,
    CheckGuest { instance: Seq<char> },
    Delete { instance: Seq<char> },
    Clone { base: Seq<char>, instance: Seq<char> },
}

impl View for VmStep {
    type V = VmStepView;

    open spec fn view(&self) -> VmStepView {
        match self {
            VmStep::CheckVersion => VmStepView::CheckVersion,
            VmStep::CheckGuest { instance } => VmStepView::CheckGuest { instance: instance@ },
            VmStep::Delete { instance } => VmStepView::Delete { instance: instance@ },
            VmStep::Clone { base, instance } => VmStepView::Clone {
                base: base@,
                instance: instance@,
            },
        }
    }
}

/// The arguments that take a step.
pub open spec fn vm_arguments_of(step: VmStepView) -> Seq<Seq<char>> {
    match step {
        VmStepView::CheckVersion => seq!["--version"@],
        VmStepView::CheckGuest { instance } => seq![
            "shell"@,
            "--tty=false"@,
            "--start"@,
            instance,
            "uname"@,
            "-s"@,
        ],
        VmStepView::Delete { instance } => seq!["delete"@, "--force"@, "--tty=false"@, instance],
        VmStepView::Clone { base, instance } => seq![
            "clone"@,
            base,
            instance,
            "--mount-none"@,
            "--tty=false"@,
        ],
    }
}

pub fn vm_arguments(step: &VmStep) -> (r: Vec<String>)
    ensures
        texts(r@) == vm_arguments_of(step@),
{
    let r = match step {
        VmStep::CheckVersion => arguments(vec!["--version"]),
        VmStep::CheckGuest { instance } => arguments(
            vec!["shell", "--tty=false", "--start", instance.as_str(), "uname", "-s"],
        ),
        VmStep::Delete { instance } => arguments(
            vec!["delete", "--force", "--tty=false", instance.as_str()],
        ),
        VmStep::Clone { base, instance } => arguments(
            vec!["clone", base.as_str(), instance.as_str(), "--mount-none", "--tty=false"],
        ),
    };
    assert(texts(r@) =~= vm_arguments_of(step@));
    r
}

/// The steps of a script on a virtual machine, and its shape.
pub struct VmScript {
    pub opening: Vec<VmStep>,
    pub body: Vec<VmStep>,
    pub ending: Vec<VmStep>,
}

#[verifier::ext_equal]
pub struct VmScriptView {
    pub opening: Seq<VmStepView>,
    pub body: Seq<VmStepView>,
    pub ending: Seq<VmStepView>,
}

impl View for VmScript {
    type V = VmScriptView;

    open spec fn view(&self) -> VmScriptView {
        VmScriptView {
            opening: views(self.opening@),
            body: views(self.body@),
            ending: views(self.ending@),
        }
    }
}

impl VmScript {
    pub fn shape(&self) -> (r: ScriptShape)
        ensures
            r.opening == self@.opening.len(),
            r.body == self@.body.len(),
            r.ending == self@.ending.len(),
            !r.always_tidy,
    {
        ScriptShape {
            opening: self.opening.len(),
            body: self.body.len(),
            ending: self.ending.len(),
            always_tidy: false,
        }
    }
}

/// Cloning a base: both have to run macOS, and a clone that does not is deleted.
pub open spec fn clone_script(base: Seq<char>, instance: Seq<char>) -> VmScriptView {
    VmScriptView {
        opening: seq![
            VmStepView::CheckVersion,
            VmStepView::CheckGuest { instance: base },
            VmStepView::Clone { base, instance },
        ],
        body: seq![VmStepView::CheckGuest { instance }],
        ending: seq![VmStepView::Delete { instance }],
    }
}

/// Starting over from the base.
pub open spec fn reset_script(base: Seq<char>, instance: Seq<char>) -> VmScriptView {
    VmScriptView {
        opening: seq![
            VmStepView::CheckVersion,
            VmStepView::CheckGuest { instance: base },
            VmStepView::Delete { instance },
            VmStepView::Clone { base, instance },
        ],
        body: seq![VmStepView::CheckGuest { instance }],
        ending: seq![VmStepView::Delete { instance }],
    }
}

/// The script that clones a base.
pub fn clone_macos_vm(base: &str, instance: &str) -> (r: VmScript)
    ensures
        r@ == clone_script(base@, instance@),
{
    let opening = vec![
        VmStep::CheckVersion,
        VmStep::CheckGuest { instance: base.to_owned() },
        VmStep::Clone { base: base.to_owned(), instance: instance.to_owned() },
    ];
    let body = vec![VmStep::CheckGuest { instance: instance.to_owned() }];
    let ending = vec![VmStep::Delete { instance: instance.to_owned() }];
    assert(views(opening@) =~= clone_script(base@, instance@).opening);
    assert(views(body@) =~= clone_script(base@, instance@).body);
    assert(views(ending@) =~= clone_script(base@, instance@).ending);
    VmScript { opening, body, ending }
}

/// The records of an environment that has been given a clone of a base.
pub open spec fn with_clone(environment: EnvironmentView, base: Seq<char>) -> EnvironmentView {
    EnvironmentView {
        metadata: environment.metadata.insert(
            VM_INSTANCE_KEY@,
            machine_of(environment.id),
        ).insert(VM_MANAGED_KEY@, "true"@).insert(VM_BASE_KEY@, base),
        ..environment
    }
}

/// Records that an environment has been given a clone of a base.
pub fn vm_clone(environment: &mut Environment, base_instance: &str)
    ensures
        final(environment)@ == with_clone(old(environment)@, base_instance@),
{
    let instance = expected_instance(environment);
    record(environment, VM_INSTANCE_KEY, instance.as_str());
    record(environment, VM_MANAGED_KEY, "true");
    record(environment, VM_BASE_KEY, base_instance);
}

/// An environment that uses a virtual machine of someone else.
pub open spec fn with_attached(
    environment: EnvironmentView,
    instance: Seq<char>,
) -> EnvironmentView {
    EnvironmentView {
        metadata: environment.metadata.insert(VM_INSTANCE_KEY@, instance).insert(
            VM_MANAGED_KEY@,
            "false"@,
        ),
        ..environment
    }
}

/// Records that an environment uses a virtual machine that it does not own.
pub fn vm_attach(environment: &mut Environment, instance: &str)
    ensures
        final(environment)@ == with_attached(old(environment)@, instance@),
{
    record(environment, VM_INSTANCE_KEY, instance);
    record(environment, VM_MANAGED_KEY, "false");
}

/// Whether an environment owns its virtual machine.
pub open spec fn owns_machine(environment: EnvironmentView) -> bool {
    recorded(environment, VM_MANAGED_KEY@) == Some("true"@)
}

/// The virtual machine that an environment owns, for an operation that destroys it.
pub open spec fn own_machine(environment: EnvironmentView, operation: Seq<char>) -> Result<
    Seq<char>,
    Seq<char>,
> {
    match recorded(environment, VM_INSTANCE_KEY@) {
        None => Err(no_machine(environment.name)),
        Some(instance) => if instance == machine_of(environment.id) {
            Ok(instance)
        } else {
            Err(
                "refusing to "@ + operation + " managed VM '"@ + instance
                    + "' because its name does not match environment '"@ + environment.name + "'"@,
            )
        },
    }
}

fn owned_instance(environment: &Environment, operation: &str) -> (r: Result<String, String>)
    ensures
        match r {
            Ok(instance) => own_machine(environment@, operation@) == Ok::<Seq<char>, Seq<char>>(
                instance@,
            ),
            Err(e) => own_machine(environment@, operation@) == Err::<Seq<char>, Seq<char>>(e@),
        },
{
    let instance = match vm_instance(environment) {
        Err(e) => return Err(e),
        Ok(instance) => instance,
    };
    if same_text(instance.as_str(), expected_instance(environment).as_str()) {
        Ok(instance)
    } else {
        Err(
            "refusing to ".to_owned().concat(operation).concat(" managed VM '").concat(
                instance.as_str(),
            ).concat("' because its name does not match environment '").concat(
                environment.name.as_str(),
            ).concat("'"),
        )
    }
}

/// The virtual machine that is deleted with an environment: its own, if it has one.
pub open spec fn deleted_machine(environment: EnvironmentView) -> Result<
    Option<Seq<char>>,
    Seq<char>,
> {
    if !owns_machine(environment) {
        Ok(None)
    } else {
        match own_machine(environment, "delete"@) {
            Ok(instance) => Ok(Some(instance)),
            Err(e) => Err(e),
        }
    }
}

/// The virtual machine that has to be deleted with an environment.
pub fn delete_managed_vm(environment: &Environment) -> (r: Result<Option<String>, String>)
    ensures
        match r {
            Ok(instance) => deleted_machine(environment@) == Ok::<Option<Seq<char>>, Seq<char>>(
                crate::text::opt_text(instance),
            ),
            Err(e) => deleted_machine(environment@) == Err::<Option<Seq<char>>, Seq<char>>(e@),
        },
{
    if !option_is(&metadata(environment, VM_MANAGED_KEY), "true") {
        return Ok(None);
    }
    match owned_instance(environment, "delete") {
        Ok(instance) => Ok(Some(instance)),
        Err(e) => Err(e),
    }
}

/// The script that starts the virtual machine of an environment over, or why it is refused.
pub open spec fn machine_reset(environment: EnvironmentView) -> Result<VmScriptView, Seq<char>> {
    if !owns_machine(environment) {
        Err(
            "environment '"@ + environment.name
                + "' does not own its macOS VM; reset the attached instance explicitly"@,
        )
    } else {
        match own_machine(environment, "reset"@) {
            Err(e) => Err(e),
            Ok(instance) => match recorded(environment, VM_BASE_KEY@) {
                None => Err("managed macOS VM has no recorded base instance"@),
                Some(base) => if !is_machine_name(base) {
                    Err("invalid Lima instance name"@)
                } else {
                    Ok(reset_script(base, instance))
                },
            },
        }
    }
}

/// The script that starts the virtual machine of an environment over.
pub fn reset_managed_vm(environment: &Environment) -> (r: Result<VmScript, String>)
    ensures
        match r {
            Ok(script) => machine_reset(environment@) == Ok::<VmScriptView, Seq<char>>(script@),
            Err(e) => machine_reset(environment@) == Err::<VmScriptView, Seq<char>>(e@),
        },
{
    if !option_is(&metadata(environment, VM_MANAGED_KEY), "true") {
        return Err(
            "environment '".to_owned().concat(environment.name.as_str()).concat(
                "' does not own its macOS VM; reset the attached instance explicitly",
            ),
        );
    }
    let instance = match owned_instance(environment, "reset") {
        Err(e) => return Err(e),
        Ok(instance) => instance,
    };
    let base = match metadata(environment, VM_BASE_KEY) {
        None => return Err("managed macOS VM has no recorded base instance".to_owned()),
        Some(base) => base,
    };
    match validate_vm_name(base.as_str()) {
        Err(e) => return Err(e),
        Ok(()) => {},
    }
    let opening = vec![
        VmStep::CheckVersion,
        VmStep::CheckGuest { instance: base.clone() },
        VmStep::Delete { instance: instance.clone() },
        VmStep::Clone { base: base.clone(), instance: instance.clone() },
    ];
    let body = vec![VmStep::CheckGuest { instance: instance.clone() }];
    let ending = vec![VmStep::Delete { instance: instance.clone() }];
    let ghost want = reset_script(base@, instance@);
    assert(views(opening@) =~= want.opening);
    assert(views(body@) =~= want.body);
    assert(views(ending@) =~= want.ending);
    let script = VmScript { opening, body, ending };
    assert(script@ == want);
    Ok(script)
}

/// Whether one of the first steps deletes a virtual machine.
pub open spec fn deletes_before(steps: Seq<VmStepView>, n: int) -> bool {
    exists|i: int| 0 <= i < n && i < steps.len() && (#[trigger] steps[i]) is Delete
}

/// Whether a script had deleted a virtual machine before a step of it.
pub open spec fn deleted_before(script: VmScriptView, step: ScriptStep) -> bool {
    match step {
        ScriptStep::Opening { index } => deletes_before(script.opening, index as int),
        ScriptStep::Body { index } => deletes_before(script.opening, script.opening.len() as int)
            || deletes_before(script.body, index as int),
        _ => false,
    }
}

fn has_deletion(steps: &Vec<VmStep>, n: usize) -> (r: bool)
    ensures
        r == deletes_before(views(steps@), n as int),
{
    let mut i: usize = 0;
    while i < n && i < steps.len()
        invariant
            i <= n,
            i <= steps.len(),
            forall|k: int| 0 <= k < i ==> !((#[trigger] views(steps@)[k]) is Delete),
        decreases steps.len() - i,
    {
        assert(views(steps@)[i as int] == steps@[i as int]@);
        if let VmStep::Delete { .. } = &steps[i] {
            return true;
        }
        i += 1;
    }
    false
}

/// What a script on a virtual machine is reported with that failed at a step: one that failed in
/// its body says that the clone did not start, and one that failed after the old clone was deleted
/// says so.
pub fn vm_failure(script: &VmScript, failed_at: ScriptStep, error: &str) -> (r: String)
    ensures
        r@ == (if deleted_before(script@, failed_at) {
            "the previous VM clone was deleted, but recreating it from the base failed: "@
        } else {
            ""@
        }) + (if failed_at is Body {
            "start cloned macOS VM: "@
        } else {
            ""@
        }) + error@,
{
    let (after_deletion, in_body) = match failed_at {
        ScriptStep::Opening { index } => (has_deletion(&script.opening, index), false),
        ScriptStep::Body { index } => (
            has_deletion(&script.opening, script.opening.len()) || has_deletion(
                &script.body,
                index,
            ),
            true,
        ),
        _ => (false, false),
    };
    (if after_deletion {
        "the previous VM clone was deleted, but recreating it from the base failed: "
    } else {
        ""
    }).to_owned().concat(
        if in_body {
            "start cloned macOS VM: "
        } else {
            ""
        },
    ).concat(error)
}

/// An environment only ever destroys a virtual machine of its own: one that carries its name.
pub proof fn law_only_own_machines_are_destroyed(environment: EnvironmentView)
    ensures
        deleted_machine(environment) matches Ok(Some(instance)) ==> owns_machine(environment)
            && instance == machine_of(environment.id),
        machine_reset(environment) matches Ok(script) ==> owns_machine(environment)
            && script.opening[2] == (VmStepView::Delete { instance: machine_of(environment.id) })
            && script.ending == seq![VmStepView::Delete { instance: machine_of(environment.id) }],
{
}

/// What is recorded of a clone is what makes the environment own it, so that it can be started
/// over and is deleted with the environment.
pub proof fn law_clones_are_owned(environment: EnvironmentView, base: Seq<char>)
    requires
        is_machine_name(base),
    ensures
        in_machine(with_clone(environment, base)),
        deleted_machine(with_clone(environment, base)) == Ok::<Option<Seq<char>>, Seq<char>>(
            Some(machine_of(environment.id)),
        ),
        machine_reset(with_clone(environment, base)) == Ok::<VmScriptView, Seq<char>>(
            reset_script(base, machine_of(environment.id)),
        ),
{
    reveal_strlit("mac_vm_instance");
    reveal_strlit("mac_vm_managed");
    reveal_strlit("mac_vm_base");
    assert(VM_INSTANCE_KEY@.len() == 15);
    assert(VM_MANAGED_KEY@.len() == 14);
    assert(VM_BASE_KEY@.len() == 11);
}

/// A virtual machine that was attached is used, but neither deleted nor started over, even if it
/// carries the name of a clone.
pub proof fn law_attached_machines_are_kept(environment: EnvironmentView, instance: Seq<char>)
    ensures
        in_machine(with_attached(environment, instance)),
        recorded(with_attached(environment, instance), VM_INSTANCE_KEY@) == Some(instance),
        deleted_machine(with_attached(environment, instance)) == Ok::<
            Option<Seq<char>>,
            Seq<char>,
        >(None),
        machine_reset(with_attached(environment, instance)) is Err,
{
    reveal_strlit("mac_vm_instance");
    reveal_strlit("mac_vm_managed");
    reveal_strlit("true");
    reveal_strlit("false");
    assert(VM_INSTANCE_KEY@.len() == 15);
    assert(VM_MANAGED_KEY@.len() == 14);
    assert("true"@.len() == 4);
    assert("false"@.len() == 5);
}

/// The arguments that run a command in the virtual machine of an environment.
pub open spec fn vm_run_arguments_of(
    name: Seq<char>,
    directory: Seq<char>,
    instance: Seq<char>,
    interactive: bool,
    command: Seq<Seq<char>>,
) -> Seq<Seq<char>> {
    (if interactive {
        seq!["shell"@]
    } else {
        seq!["shell"@, "--tty=false"@]
    }) + seq![
        "--start"@,
        instance,
        "/usr/bin/env"@,
        "NETSANDBOX_ACTIVE="@ + name,
        "PS1=[nsb:"@ + name + "] \\w \\$ "@,
        "NETSANDBOX_CONTROL="@ + directory,
        "NETSANDBOX_BIN="@ + guest_program(directory),
        "PATH="@ + directory + ":/opt/homebrew/bin:/usr/local/bin:/usr/bin:/bin:/usr/sbin:/sbin"@,
    ] + command
}

/// The arguments that run a command in the virtual machine of an environment.
pub fn run_arguments(
    environment: &Environment,
    instance: &str,
    interactive: bool,
    command: &Vec<String>,
) -> (r: Vec<String>)
    ensures
        texts(r@) == vm_run_arguments_of(
            environment@.name,
            guest_directory_of(environment@.id),
            instance@,
            interactive,
            texts(command@),
        ),
{
    let directory = guest_directory(environment);
    let name = environment.name.as_str();
    let mut r = if interactive {
        arguments(vec!["shell"])
    } else {
        arguments(vec!["shell", "--tty=false"])
    };
    let ghost head = if interactive {
        seq!["shell"@]
    } else {
        seq!["shell"@, "--tty=false"@]
    };
    assert(texts(r@) =~= head);
    let active = "NETSANDBOX_ACTIVE=".to_owned().concat(name);
    let prompt = "PS1=[nsb:".to_owned().concat(name).concat("] \\w \\$ ");
    let control = "NETSANDBOX_CONTROL=".to_owned().concat(directory.text.as_str());
    let program = "NETSANDBOX_BIN=".to_owned().concat(directory.join("netsandbox").text.as_str());
    let path = "PATH=".to_owned().concat(directory.text.as_str()).concat(
        ":/opt/homebrew/bin:/usr/local/bin:/usr/bin:/bin:/usr/sbin:/sbin",
    );
    let middle = arguments(
        vec![
            "--start", instance, "/usr/bin/env", active.as_str(), prompt.as_str(), control.as_str(),
            program.as_str(), path.as_str(),
        ],
    );
    let ghost body = seq![
        "--start"@,
        instance@,
        "/usr/bin/env"@,
        active@,
        prompt@,
        control@,
        program@,
        path@,
    ];
    assert(texts(middle@) =~= body);
    append_texts(&mut r, &middle);
    append_texts(&mut r, command);
    r
}

/// What was found of the host for a report. `machine_runtime` is where a Lima is that will do, or
/// why there is none.
pub struct MacFindings {
    pub route_tool: bool,
    pub loopback: bool,
    pub machine_runtime: Result<FsPath, String>,
}

/// The report on a macOS host, as far as routes and virtual machines go.
pub open spec fn mac_report(findings: MacFindings) -> Seq<DoctorCheckView> {
    seq![
        check_of(
            "legacy macOS VM runner"@,
            findings.machine_runtime is Ok,
            false,
            match findings.machine_runtime {
                Ok(path) => "Lima 2.1+ available at "@ + path@,
                Err(e) => "optional legacy backend unavailable: "@ + e@,
            },
        ),
        check_of(
            "macOS route backend"@,
            true,
            true,
            "interface-bound previews plus transactional route apply/rollback"@,
        ),
        check_of(
            "route inspection"@,
            findings.route_tool,
            true,
            "/sbin/route inspection and privileged mutation"@,
        ),
        check_of(
            "IP_BOUND_IF"@,
            findings.loopback,
            true,
            "connection-scoped interface binding"@,
        ),
        check_of(
            "differential apply"@,
            true,
            true,
            "filesystem and route changes use backup-backed transactions"@,
        ),
    ]
}

/// Reports on a macOS host, as far as routes and virtual machines go.
pub fn doctor(findings: &MacFindings) -> (r: Vec<DoctorCheck>)
    ensures
        views(r@) == mac_report(*findings),
{
    let runtime = match &findings.machine_runtime {
        Ok(path) => "Lima 2.1+ available at ".to_owned().concat(path.text.as_str()),
        Err(e) => "optional legacy backend unavailable: ".to_owned().concat(e.as_str()),
    };
    let r = vec![
        check(
            "legacy macOS VM runner",
            findings.machine_runtime.is_ok(),
            false,
            runtime.as_str(),
        ),
        check(
            "macOS route backend",
            true,
            true,
            "interface-bound previews plus transactional route apply/rollback",
        ),
        check(
            "route inspection",
            findings.route_tool,
            true,
            "/sbin/route inspection and privileged mutation",
        ),
        check("IP_BOUND_IF", findings.loopback, true, "connection-scoped interface binding"),
        check(
            "differential apply",
            true,
            true,
            "filesystem and route changes use backup-backed transactions",
        ),
    ];
    assert(views(r@) =~= mac_report(*findings));
    r
}

} // verus!
