//! The mounts that make up a sandbox.
use crate::bytes::{byte_views, copy_bytes};
use crate::command::policy::{
    grant_views, CommandSandboxPolicy, GrantView, PolicyView, SandboxFilesystemAccess,
};
use crate::path::{
    has_body, is_absolute_path, lemma_parent_shorter, parent_drops_the_last_component, parent_of,
    same_path, trimmed, without_last_piece, HostPath,
};
use vstd::prelude::*;
use vstd::utf8::{encode_utf8, is_ascii_chars_encode_utf8};

verus! {

/// One step in laying out the sandbox's filesystem.
#[derive(Clone, Debug, PartialEq, Eq)]
pub enum LinuxSandboxOperation {
    CreateDirectory { path: HostPath },
    DeviceFilesystem { path: HostPath },
    PrivateTmpfs { path: HostPath },
    ProcFilesystem { path: HostPath },
    ReadOnlyBind { path: HostPath },
    ReadWriteBind { path: HostPath },
}

pub enum OperationView {
    CreateDirectory { path: Seq<u8> },
    DeviceFilesystem { path: Seq<u8> },
    PrivateTmpfs { path: Seq<u8> },
    ProcFilesystem { path: Seq<u8> },
    ReadOnlyBind { path: Seq<u8> },
    ReadWriteBind { path: Seq<u8> },
}

impl View for LinuxSandboxOperation {
    type V = OperationView;

    open spec fn view(&self) -> OperationView {
        match self {
            LinuxSandboxOperation::CreateDirectory { path } =>
                OperationView::CreateDirectory { path: path@ },
            LinuxSandboxOperation::DeviceFilesystem { path } =>
                OperationView::DeviceFilesystem { path: path@ },
            LinuxSandboxOperation::PrivateTmpfs { path } =>
                OperationView::PrivateTmpfs { path: path@ },
            LinuxSandboxOperation::ProcFilesystem { path } =>
                OperationView::ProcFilesystem { path: path@ },
            LinuxSandboxOperation::ReadOnlyBind { path } =>
                OperationView::ReadOnlyBind { path: path@ },
            LinuxSandboxOperation::ReadWriteBind { path } =>
                OperationView::ReadWriteBind { path: path@ },
        }
    }
}

pub open spec fn operation_views(operations: Seq<LinuxSandboxOperation>) -> Seq<OperationView> {
    Seq::new(operations.len(), |i: int| operations[i]@)
}

/// The operations, and the launcher's arguments that carry them out.
#[derive(Clone, Debug, PartialEq, Eq)]
pub struct LinuxSandboxPlan {
    arguments: Vec<Vec<u8>>,
    operations: Vec<LinuxSandboxOperation>,
}

pub struct PlanView {
    pub arguments: Seq<Seq<u8>>,
    pub operations: Seq<OperationView>,
}

impl View for LinuxSandboxPlan {
    type V = PlanView;

    closed spec fn view(&self) -> PlanView {
        PlanView {
            arguments: byte_views(self.arguments@),
            operations: operation_views(self.operations@),
        }
    }
}

impl LinuxSandboxPlan {
    pub fn arguments(&self) -> (arguments: &[Vec<u8>])
        ensures
            byte_views(arguments@) == self@.arguments,
    {
        self.arguments.as_slice()
    }

    pub fn operations(&self) -> (operations: &[LinuxSandboxOperation])
        ensures
            operation_views(operations@) == self@.operations,
    {
        self.operations.as_slice()
    }
}

/// The directories above a path, the outermost first, without the root.
pub open spec fn directories_above(path: Seq<u8>) -> Seq<Seq<u8>>
    decreases path.len(),
{
    match parent_of(path) {
        None => Seq::empty(),
        Some(parent) => {
            proof {
                lemma_parent_shorter(path);
            }
            if has_body(parent) {
                directories_above(parent).push(parent)
            } else {
                Seq::empty()
            }
        },
    }
}

/// Whether the directory is created already.
pub open spec fn is_created(operations: Seq<OperationView>, path: Seq<u8>) -> bool {
    exists|i: int|
        0 <= i < operations.len() && (#[trigger] operations[i] matches OperationView::CreateDirectory {
            path: created,
        } && same_path(created, path))
}

/// The operations with one more directory, unless it is created already.
pub open spec fn with_directory(operations: Seq<OperationView>, path: Seq<u8>) -> Seq<
    OperationView,
> {
    if is_created(operations, path) {
        operations
    } else {
        operations.push(OperationView::CreateDirectory { path })
    }
}

pub open spec fn with_directories(
    operations: Seq<OperationView>,
    paths: Seq<Seq<u8>>,
) -> Seq<OperationView>
    decreases paths.len(),
{
    if paths.len() == 0 {
        operations
    } else {
        with_directory(with_directories(operations, paths.drop_last()), paths.last())
    }
}

/// The operations with a private directory: it and those above it are created, and it is empty.
pub open spec fn with_private(operations: Seq<OperationView>, path: Seq<u8>) -> Seq<
    OperationView,
> {
    with_directory(with_directories(operations, directories_above(path)), path).push(
        OperationView::PrivateTmpfs { path },
    )
}

pub open spec fn bind_of(grant: GrantView) -> OperationView {
    match grant.access {
        SandboxFilesystemAccess::ReadOnly => OperationView::ReadOnlyBind { path: grant.path },
        SandboxFilesystemAccess::ReadWrite => OperationView::ReadWriteBind { path: grant.path },
    }
}

/// The operations with the grants bound, each over the directories above it.
pub open spec fn with_binds(operations: Seq<OperationView>, grants: Seq<GrantView>) -> Seq<
    OperationView,
>
    decreases grants.len(),
{
    if grants.len() == 0 {
        operations
    } else {
        with_directories(
            with_binds(operations, grants.drop_last()),
            directories_above(grants.last().path),
        ).push(bind_of(grants.last()))
    }
}

/// The operations of a plan: the private directories, the grants in their order, and the
/// filesystems of the kernel.
pub open spec fn plan_operations(policy: PolicyView) -> Seq<OperationView> {
    let private = with_private(
        with_private(Seq::empty(), policy.private_home),
        policy.private_temp,
    );
    let proc = encode_utf8("/proc"@);
    let dev = encode_utf8("/dev"@);
    with_directory(
        with_directory(with_binds(private, policy.grants), proc).push(
            OperationView::ProcFilesystem { path: proc },
        ),
        dev,
    ).push(OperationView::DeviceFilesystem { path: dev })
}

/// The launcher's arguments for one operation.
pub open spec fn operation_arguments(operation: OperationView) -> Seq<Seq<u8>> {
    match operation {
        OperationView::CreateDirectory { path } => seq![encode_utf8("--dir"@), path],
        OperationView::DeviceFilesystem { path } => seq![encode_utf8("--dev"@), path],
        OperationView::PrivateTmpfs { path } => seq![encode_utf8("--tmpfs"@), path],
        OperationView::ProcFilesystem { path } => seq![encode_utf8("--proc"@), path],
        OperationView::ReadOnlyBind { path } => seq![encode_utf8("--ro-bind"@), path, path],
        OperationView::ReadWriteBind { path } => seq![encode_utf8("--bind"@), path, path],
    }
}

pub open spec fn all_operation_arguments(operations: Seq<OperationView>) -> Seq<Seq<u8>>
    decreases operations.len(),
{
    if operations.len() == 0 {
        Seq::empty()
    } else {
        all_operation_arguments(operations.drop_last()) + operation_arguments(operations.last())
    }
}

/// The arguments that keep the sandbox apart from the host, whatever is mounted.
pub open spec fn isolation_arguments() -> Seq<Seq<u8>> {
    seq![
        encode_utf8("--die-with-parent"@),
        encode_utf8("--new-session"@),
        encode_utf8("--unshare-user"@),
        encode_utf8("--unshare-pid"@),
        encode_utf8("--unshare-net"@),
        encode_utf8("--unshare-ipc"@),
        encode_utf8("--unshare-uts"@),
        encode_utf8("--clearenv"@),
    ]
}

/// The plan for a policy.
pub open spec fn plan_of(policy: PolicyView) -> PlanView {
    PlanView {
        arguments: isolation_arguments() + all_operation_arguments(plan_operations(policy)),
        operations: plan_operations(policy),
    }
}

/// The bytes of a text, as an argument.
pub fn text_argument(text: &str) -> (argument: Vec<u8>)
    ensures
        argument@ == encode_utf8(text@),
{
    copy_bytes(text.as_bytes())
}

/// Appends an argument.
pub fn push_argument(arguments: &mut Vec<Vec<u8>>, argument: Vec<u8>)
    ensures
        byte_views(final(arguments)@) == byte_views(old(arguments)@).push(argument@),
{
    arguments.push(argument);
    assert(byte_views(arguments@) =~= byte_views(old(arguments)@).push(argument@));
}

/// Appends the bytes of a text as an argument.
pub fn push_text_argument(arguments: &mut Vec<Vec<u8>>, text: &str)
    ensures
        byte_views(final(arguments)@) == byte_views(old(arguments)@).push(encode_utf8(text@)),
{
    push_argument(arguments, text_argument(text));
}

/// Appends the bytes of a path as an argument.
pub fn push_path_argument(arguments: &mut Vec<Vec<u8>>, path: &HostPath)
    ensures
        byte_views(final(arguments)@) == byte_views(old(arguments)@).push(path@),
{
    push_argument(arguments, copy_bytes(path.as_bytes()));
}

fn namespace_arguments() -> (arguments: Vec<Vec<u8>>)
    ensures
        byte_views(arguments@) == isolation_arguments(),
{
    let mut arguments: Vec<Vec<u8>> = Vec::new();
    push_text_argument(&mut arguments, "--die-with-parent");
    push_text_argument(&mut arguments, "--new-session");
    push_text_argument(&mut arguments, "--unshare-user");
    push_text_argument(&mut arguments, "--unshare-pid");
    push_text_argument(&mut arguments, "--unshare-net");
    push_text_argument(&mut arguments, "--unshare-ipc");
    push_text_argument(&mut arguments, "--unshare-uts");
    push_text_argument(&mut arguments, "--clearenv");
    assert(byte_views(arguments@) =~= isolation_arguments());
    arguments
}

fn push_operation(operations: &mut Vec<LinuxSandboxOperation>, operation: LinuxSandboxOperation)
    ensures
        operation_views(final(operations)@) == operation_views(old(operations)@).push(operation@),
{
    operations.push(operation);
    assert(operation_views(operations@) =~= operation_views(old(operations)@).push(operation@));
}

fn has_directory(operations: &Vec<LinuxSandboxOperation>, path: &HostPath) -> (created: bool)
    ensures
        created == is_created(operation_views(operations@), path@),
{
    let ghost views = operation_views(operations@);
    let mut index: usize = 0;
    while index < operations.len()
        invariant
            index <= operations@.len(),
            views == operation_views(operations@),
            forall|i: int|
                0 <= i < index ==> !(#[trigger] views[i] matches OperationView::CreateDirectory {
                    path: created,
                } && same_path(created, path@)),
        decreases operations.len() - index,
    {
        assert(views[index as int] == operations@[index as int]@);
        if let LinuxSandboxOperation::CreateDirectory { path: created } = &operations[index] {
            if created.same(path) {
                return true;
            }
        }
        index += 1;
    }
    false
}

fn add_directory(operations: &mut Vec<LinuxSandboxOperation>, path: HostPath)
    ensures
        operation_views(final(operations)@) == with_directory(
            operation_views(old(operations)@),
            path@,
        ),
{
    if !has_directory(operations, &path) {
        push_operation(operations, LinuxSandboxOperation::CreateDirectory { path });
    }
}

/// Creates the directories above a path, the outermost first.
fn add_parent_directories(operations: &mut Vec<LinuxSandboxOperation>, path: &HostPath)
    ensures
        operation_views(final(operations)@) == with_directories(
            operation_views(old(operations)@),
            directories_above(path@),
        ),
    decreases path@.len(),
{
    if let Some(parent) = path.parent() {
        proof {
            lemma_parent_shorter(path@);
        }
        if parent.has_parent() {
            add_parent_directories(operations, &parent);
            proof {
                let above = directories_above(path@);
                assert(above.drop_last() =~= directories_above(parent@));
            }
            add_directory(operations, parent);
        }
    }
}

fn add_private_directory(operations: &mut Vec<LinuxSandboxOperation>, path: &HostPath)
    ensures
        operation_views(final(operations)@) == with_private(
            operation_views(old(operations)@),
            path@,
        ),
{
    add_parent_directories(operations, path);
    add_directory(operations, path.clone());
    push_operation(operations, LinuxSandboxOperation::PrivateTmpfs { path: path.clone() });
}

fn append_operation_arguments(operation: &LinuxSandboxOperation, arguments: &mut Vec<Vec<u8>>)
    ensures
        byte_views(final(arguments)@) == byte_views(old(arguments)@) + operation_arguments(
            operation@,
        ),
{
    let (flag, path, twice) = match operation {
        LinuxSandboxOperation::CreateDirectory { path } => ("--dir", path, false),
        LinuxSandboxOperation::DeviceFilesystem { path } => ("--dev", path, false),
        LinuxSandboxOperation::PrivateTmpfs { path } => ("--tmpfs", path, false),
        LinuxSandboxOperation::ProcFilesystem { path } => ("--proc", path, false),
        LinuxSandboxOperation::ReadOnlyBind { path } => ("--ro-bind", path, true),
        LinuxSandboxOperation::ReadWriteBind { path } => ("--bind", path, true),
    };
    push_text_argument(arguments, flag);
    push_path_argument(arguments, path);
    if twice {
        push_path_argument(arguments, path);
    }
    assert(byte_views(arguments@) =~= byte_views(old(arguments)@) + operation_arguments(
        operation@,
    ));
}

/// Lays out the sandbox that a policy asks for.
pub fn compile_linux_sandbox_plan(policy: &CommandSandboxPolicy) -> (plan: LinuxSandboxPlan)
    ensures
        plan@ == plan_of(policy@),
{
    let mut operations: Vec<LinuxSandboxOperation> = Vec::new();
    assert(operation_views(operations@) =~= Seq::empty());
    add_private_directory(&mut operations, policy.private_home());
    add_private_directory(&mut operations, policy.private_temp());
    let ghost private = operation_views(operations@);
    let grants = policy.grants();
    let ghost views = grant_views(grants@);
    let mut index: usize = 0;
    assert(views.take(0) =~= Seq::empty());
    while index < grants.len()
        invariant
            index <= grants@.len(),
            views == grant_views(grants@),
            operation_views(operations@) == with_binds(private, views.take(index as int)),
        decreases grants.len() - index,
    {
        let grant = &grants[index];
        proof {
            let here = views.take(index + 1);
            assert(here.drop_last() =~= views.take(index as int));
            assert(here.last() == grant@);
        }
        add_parent_directories(&mut operations, &grant.path);
        let operation = match grant.access {
            SandboxFilesystemAccess::ReadOnly => LinuxSandboxOperation::ReadOnlyBind {
                path: grant.path.clone(),
            },
            SandboxFilesystemAccess::ReadWrite => LinuxSandboxOperation::ReadWriteBind {
                path: grant.path.clone(),
            },
        };
        push_operation(&mut operations, operation);
        index += 1;
    }
    assert(views.take(views.len() as int) =~= views);
    add_directory(&mut operations, HostPath::from_text("/proc"));
    push_operation(
        &mut operations,
        LinuxSandboxOperation::ProcFilesystem { path: HostPath::from_text("/proc") },
    );
    add_directory(&mut operations, HostPath::from_text("/dev"));
    push_operation(
        &mut operations,
        LinuxSandboxOperation::DeviceFilesystem { path: HostPath::from_text("/dev") },
    );
    let mut arguments = namespace_arguments();
    let ghost planned = operation_views(operations@);
    let mut next: usize = 0;
    proof {
        assert(planned.take(0) =~= Seq::empty());
        assert(isolation_arguments() + Seq::<Seq<u8>>::empty() =~= isolation_arguments());
    }
    while next < operations.len()
        invariant
            next <= operations@.len(),
            planned == operation_views(operations@),
            byte_views(arguments@) == isolation_arguments() + all_operation_arguments(
                planned.take(next as int),
            ),
        decreases operations.len() - next,
    {
        let ghost before = byte_views(arguments@);
        proof {
            let here = planned.take(next + 1);
            assert(here.drop_last() =~= planned.take(next as int));
            assert(here.last() == operations@[next as int]@);
        }
        append_operation_arguments(&operations[next], &mut arguments);
        proof {
            assert(byte_views(arguments@) =~= isolation_arguments() + all_operation_arguments(
                planned.take(next + 1),
            ));
        }
        next += 1;
    }
    assert(planned.take(planned.len() as int) =~= planned);
    LinuxSandboxPlan { arguments, operations }
}

/// The paths of the host that a plan mounts, in order.
pub open spec fn bound_paths(operations: Seq<OperationView>) -> Seq<OperationView>
    decreases operations.len(),
{
    if operations.len() == 0 {
        Seq::empty()
    } else {
        let before = bound_paths(operations.drop_last());
        match operations.last() {
            OperationView::ReadOnlyBind { .. } => before.push(operations.last()),
            OperationView::ReadWriteBind { .. } => before.push(operations.last()),
            _ => before,
        }
    }
}

proof fn lemma_push_bound(operations: Seq<OperationView>, operation: OperationView)
    ensures
        bound_paths(operations.push(operation)) == match operation {
            OperationView::ReadOnlyBind { .. } => bound_paths(operations).push(operation),
            OperationView::ReadWriteBind { .. } => bound_paths(operations).push(operation),
            _ => bound_paths(operations),
        },
{
    assert(operations.push(operation).drop_last() =~= operations);
}

proof fn lemma_directories_bind_nothing(operations: Seq<OperationView>, paths: Seq<Seq<u8>>)
    ensures
        bound_paths(with_directories(operations, paths)) == bound_paths(operations),
    decreases paths.len(),
{
    if paths.len() > 0 {
        lemma_directories_bind_nothing(operations, paths.drop_last());
        lemma_push_bound(
            with_directories(operations, paths.drop_last()),
            OperationView::CreateDirectory { path: paths.last() },
        );
    }
}

proof fn lemma_private_binds_nothing(operations: Seq<OperationView>, path: Seq<u8>)
    ensures
        bound_paths(with_private(operations, path)) == bound_paths(operations),
{
    let above = with_directories(operations, directories_above(path));
    lemma_directories_bind_nothing(operations, directories_above(path));
    lemma_push_bound(above, OperationView::CreateDirectory { path });
    lemma_push_bound(with_directory(above, path), OperationView::PrivateTmpfs { path });
}

proof fn lemma_binds(operations: Seq<OperationView>, grants: Seq<GrantView>)
    ensures
        bound_paths(with_binds(operations, grants)) == bound_paths(operations) + Seq::new(
            grants.len(),
            |i: int| bind_of(grants[i]),
        ),
    decreases grants.len(),
{
    let binds = Seq::new(grants.len(), |i: int| bind_of(grants[i]));
    if grants.len() == 0 {
        assert(binds =~= Seq::empty());
        assert(bound_paths(operations) + binds =~= bound_paths(operations));
    } else {
        let before = with_binds(operations, grants.drop_last());
        let above = directories_above(grants.last().path);
        lemma_binds(operations, grants.drop_last());
        lemma_directories_bind_nothing(before, above);
        lemma_push_bound(with_directories(before, above), bind_of(grants.last()));
        assert(bound_paths(with_binds(operations, grants)) =~= bound_paths(operations) + binds);
    }
}

/// A plan mounts from the host exactly what the policy grants, in the policy's order and with the
/// policy's access.
pub proof fn plans_bind_exactly_the_grants(policy: PolicyView)
    ensures
        bound_paths(plan_operations(policy)) == Seq::new(
            policy.grants.len(),
            |i: int| bind_of(policy.grants[i]),
        ),
{
    let home = with_private(Seq::empty(), policy.private_home);
    let private = with_private(home, policy.private_temp);
    let bound = with_binds(private, policy.grants);
    let proc = encode_utf8("/proc"@);
    let dev = encode_utf8("/dev"@);
    lemma_private_binds_nothing(Seq::empty(), policy.private_home);
    lemma_private_binds_nothing(home, policy.private_temp);
    lemma_binds(private, policy.grants);
    lemma_push_bound(bound, OperationView::CreateDirectory { path: proc });
    let with_proc = with_directory(bound, proc).push(OperationView::ProcFilesystem { path: proc });
    lemma_push_bound(with_directory(bound, proc), OperationView::ProcFilesystem { path: proc });
    lemma_push_bound(with_proc, OperationView::CreateDirectory { path: dev });
    lemma_push_bound(with_directory(with_proc, dev), OperationView::DeviceFilesystem { path: dev });
    assert(bound_paths(plan_operations(policy)) =~= Seq::new(
        policy.grants.len(),
        |i: int| bind_of(policy.grants[i]),
    ));
}

/// Each directory is created once.
pub open spec fn creates_once(operations: Seq<OperationView>) -> bool {
    forall|i: int, j: int|
        0 <= i < j < operations.len() && #[trigger] operations[i] is CreateDirectory
            && #[trigger] operations[j] is CreateDirectory ==> !same_path(
            operations[i]->CreateDirectory_path,
            operations[j]->CreateDirectory_path,
        )
}

proof fn lemma_directory_once(operations: Seq<OperationView>, path: Seq<u8>)
    requires
        creates_once(operations),
    ensures
        creates_once(with_directory(operations, path)),
{
    let longer = with_directory(operations, path);
    assert forall|i: int, j: int|
        0 <= i < j < longer.len() && #[trigger] longer[i] is CreateDirectory
            && #[trigger] longer[j] is CreateDirectory implies !same_path(
        longer[i]->CreateDirectory_path,
        longer[j]->CreateDirectory_path,
    ) by {
        if j == operations.len() {
            assert(longer[i] == operations[i]);
        }
    }
}

proof fn lemma_other_once(operations: Seq<OperationView>, operation: OperationView)
    requires
        creates_once(operations),
        !(operation is CreateDirectory),
    ensures
        creates_once(operations.push(operation)),
{
}

proof fn lemma_directories_once(operations: Seq<OperationView>, paths: Seq<Seq<u8>>)
    requires
        creates_once(operations),
    ensures
        creates_once(with_directories(operations, paths)),
    decreases paths.len(),
{
    if paths.len() > 0 {
        lemma_directories_once(operations, paths.drop_last());
        lemma_directory_once(with_directories(operations, paths.drop_last()), paths.last());
    }
}

proof fn lemma_private_once(operations: Seq<OperationView>, path: Seq<u8>)
    requires
        creates_once(operations),
    ensures
        creates_once(with_private(operations, path)),
{
    let above = with_directories(operations, directories_above(path));
    lemma_directories_once(operations, directories_above(path));
    lemma_directory_once(above, path);
    lemma_other_once(with_directory(above, path), OperationView::PrivateTmpfs { path });
}

proof fn lemma_binds_once(operations: Seq<OperationView>, grants: Seq<GrantView>)
    requires
        creates_once(operations),
    ensures
        creates_once(with_binds(operations, grants)),
    decreases grants.len(),
{
    if grants.len() > 0 {
        let before = with_binds(operations, grants.drop_last());
        let above = directories_above(grants.last().path);
        lemma_binds_once(operations, grants.drop_last());
        lemma_directories_once(before, above);
        lemma_other_once(with_directories(before, above), bind_of(grants.last()));
    }
}

/// A plan creates no directory twice, however it is spelled.
pub proof fn plans_create_directories_once(policy: PolicyView)
    ensures
        creates_once(plan_operations(policy)),
{
    let home = with_private(Seq::empty(), policy.private_home);
    let private = with_private(home, policy.private_temp);
    let bound = with_binds(private, policy.grants);
    let proc = encode_utf8("/proc"@);
    let dev = encode_utf8("/dev"@);
    lemma_private_once(Seq::empty(), policy.private_home);
    lemma_private_once(home, policy.private_temp);
    lemma_binds_once(private, policy.grants);
    lemma_directory_once(bound, proc);
    let with_proc = with_directory(bound, proc).push(OperationView::ProcFilesystem { path: proc });
    lemma_other_once(with_directory(bound, proc), OperationView::ProcFilesystem { path: proc });
    lemma_directory_once(with_proc, dev);
    lemma_other_once(with_directory(with_proc, dev), OperationView::DeviceFilesystem { path: dev });
}

/// Where in the arguments those of the operation at `at` begin.
spec fn argument_start(operations: Seq<OperationView>, at: int) -> int {
    all_operation_arguments(operations.take(at)).len() as int
}

proof fn lemma_arguments_split(operations: Seq<OperationView>, at: int)
    requires
        0 <= at < operations.len(),
    ensures
        ({
            let arguments = all_operation_arguments(operations);
            let start = argument_start(operations, at);
            let own = operation_arguments(operations[at]);
            &&& 0 <= start
            &&& start + own.len() <= arguments.len()
            &&& forall|i: int| 0 <= i < own.len() ==> #[trigger] own[i] == arguments[start + i]
            &&& at + 1 < operations.len() ==> argument_start(operations, at + 1) == start
                + own.len()
            &&& at + 1 == operations.len() ==> arguments.len() == start + own.len()
        }),
    decreases operations.len(),
{
    let before = operations.drop_last();
    let arguments = all_operation_arguments(operations);
    let own = operation_arguments(operations[at]);
    if at == operations.len() - 1 {
        assert(operations.take(at) =~= before);
    } else {
        lemma_arguments_split(before, at);
        assert(before.take(at) =~= operations.take(at));
        assert(before[at] == operations[at]);
        if at + 1 < before.len() {
            assert(before.take(at + 1) =~= operations.take(at + 1));
        } else {
            assert(operations.take(at + 1) =~= before);
        }
    }
}

/// Every argument belongs to an operation.
proof fn lemma_argument_owned(operations: Seq<OperationView>, index: int) -> (at: int)
    requires
        0 <= index < all_operation_arguments(operations).len(),
    ensures
        0 <= at < operations.len(),
        argument_start(operations, at) <= index < argument_start(operations, at)
            + operation_arguments(operations[at]).len(),
    decreases operations.len(),
{
    let before = operations.drop_last();
    let length = all_operation_arguments(before).len();
    if index >= length {
        let at = operations.len() - 1;
        assert(operations.take(at) =~= before);
        at
    } else {
        let at = lemma_argument_owned(before, index);
        assert(before.take(at) =~= operations.take(at));
        at
    }
}

/// The flag that binds a path of the host with this access.
pub open spec fn binding_flag(access: SandboxFilesystemAccess) -> Seq<u8> {
    match access {
        SandboxFilesystemAccess::ReadOnly => encode_utf8("--ro-bind"@),
        SandboxFilesystemAccess::ReadWrite => encode_utf8("--bind"@),
    }
}

/// At `at` the arguments bind `path` to itself under `flag`.
pub open spec fn binds_at(arguments: Seq<Seq<u8>>, at: int, flag: Seq<u8>, path: Seq<u8>) -> bool {
    &&& 0 <= at
    &&& at + 2 < arguments.len()
    &&& arguments[at] == flag
    &&& arguments[at + 1] == path
    &&& arguments[at + 2] == path
}

/// At `at` the arguments set something up at `path` under `flag`.
pub open spec fn mounts_at(arguments: Seq<Seq<u8>>, at: int, flag: Seq<u8>, path: Seq<u8>) -> bool {
    &&& 0 <= at
    &&& at + 1 < arguments.len()
    &&& arguments[at] == flag
    &&& arguments[at + 1] == path
}

/// Where the grant at `at` is bound among the operations.
proof fn lemma_bind_placed(operations: Seq<OperationView>, grants: Seq<GrantView>, at: int) -> (place:
    int)
    requires
        0 <= at < grants.len(),
    ensures
        operations.len() <= place < with_binds(operations, grants).len(),
        with_binds(operations, grants)[place] == match grants[at].access {
            SandboxFilesystemAccess::ReadOnly => OperationView::ReadOnlyBind {
                path: grants[at].path,
            },
            SandboxFilesystemAccess::ReadWrite => OperationView::ReadWriteBind {
                path: grants[at].path,
            },
        },
        place == with_binds(operations, grants.take(at + 1)).len() - 1,
    decreases grants.len(),
{
    let before = with_binds(operations, grants.drop_last());
    let above = directories_above(grants.last().path);
    lemma_binds_extend(operations, grants.drop_last());
    lemma_directories_extend(before, above);
    if at == grants.len() - 1 {
        assert(grants.take(at + 1) =~= grants);
        with_binds(operations, grants).len() - 1
    } else {
        let place = lemma_bind_placed(operations, grants.drop_last(), at);
        assert(grants.drop_last().take(at + 1) =~= grants.take(at + 1));
        place
    }
}

/// Adding directories changes nothing before them.
proof fn lemma_directories_extend(operations: Seq<OperationView>, paths: Seq<Seq<u8>>)
    ensures
        operations.len() <= with_directories(operations, paths).len(),
        forall|i: int|
            0 <= i < operations.len() ==> #[trigger] with_directories(operations, paths)[i]
                == operations[i],
        forall|i: int|
            operations.len() <= i < with_directories(operations, paths).len() ==> (
            #[trigger] with_directories(operations, paths)[i]) is CreateDirectory,
    decreases paths.len(),
{
    if paths.len() > 0 {
        lemma_directories_extend(operations, paths.drop_last());
    }
}

proof fn lemma_binds_extend(operations: Seq<OperationView>, grants: Seq<GrantView>)
    ensures
        operations.len() <= with_binds(operations, grants).len(),
        forall|i: int|
            0 <= i < operations.len() ==> #[trigger] with_binds(operations, grants)[i]
                == operations[i],
    decreases grants.len(),
{
    if grants.len() > 0 {
        let before = with_binds(operations, grants.drop_last());
        lemma_binds_extend(operations, grants.drop_last());
        lemma_directories_extend(before, directories_above(grants.last().path));
    }
}

/// Longer lists of grants are bound after shorter ones.
proof fn lemma_binds_grow(operations: Seq<OperationView>, grants: Seq<GrantView>, early: int, late: int)
    requires
        0 <= early < late <= grants.len(),
    ensures
        with_binds(operations, grants.take(early)).len() < with_binds(
            operations,
            grants.take(late),
        ).len(),
    decreases late,
{
    let longer = grants.take(late);
    assert(longer.drop_last() =~= grants.take(late - 1));
    lemma_directories_extend(
        with_binds(operations, grants.take(late - 1)),
        directories_above(longer.last().path),
    );
    if early < late - 1 {
        lemma_binds_grow(operations, grants, early, late - 1);
    }
}

/// The operations before the grants are bound.
spec fn private_operations(policy: PolicyView) -> Seq<OperationView> {
    with_private(with_private(Seq::empty(), policy.private_home), policy.private_temp)
}

/// The operations of a plan start with those that set up the private directories and bind the
/// grants.
proof fn lemma_plan_extends(policy: PolicyView)
    ensures
        ({
            let bound = with_binds(private_operations(policy), policy.grants);
            &&& bound.len() <= plan_operations(policy).len()
            &&& forall|i: int|
                0 <= i < bound.len() ==> #[trigger] plan_operations(policy)[i] == bound[i]
            &&& forall|i: int|
                bound.len() <= i < plan_operations(policy).len() ==> !((
                #[trigger] plan_operations(policy)[i]) is ReadOnlyBind)
                    && !(plan_operations(policy)[i] is ReadWriteBind)
        }),
{
}

/// Where the arguments for the operation at `at` of a plan stand.
proof fn lemma_plan_argument(policy: PolicyView, at: int)
    requires
        0 <= at < plan_operations(policy).len(),
    ensures
        ({
            let start = 8 + argument_start(plan_operations(policy), at);
            let own = operation_arguments(plan_operations(policy)[at]);
            &&& 8 <= start
            &&& start + own.len() <= plan_of(policy).arguments.len()
            &&& forall|i: int|
                0 <= i < own.len() ==> #[trigger] own[i] == plan_of(policy).arguments[start + i]
        }),
{
    lemma_arguments_split(plan_operations(policy), at);
    let arguments = all_operation_arguments(plan_operations(policy));
    assert(isolation_arguments().len() == 8);
    let start = argument_start(plan_operations(policy), at);
    let own = operation_arguments(plan_operations(policy)[at]);
    assert forall|i: int| 0 <= i < own.len() implies #[trigger] own[i] == plan_of(
        policy,
    ).arguments[8 + start + i] by {
        assert(own[i] == arguments[start + i]);
    }
}

/// Arguments of later operations stand behind those of earlier ones.
proof fn lemma_starts_ordered(operations: Seq<OperationView>, early: int, late: int)
    requires
        0 <= early < late < operations.len(),
    ensures
        argument_start(operations, early) + operation_arguments(operations[early]).len()
            <= argument_start(operations, late),
    decreases late,
{
    lemma_arguments_split(operations, early);
    if early + 1 < late {
        lemma_starts_ordered(operations, early, late - 1);
        lemma_arguments_split(operations, late - 1);
    }
}

/// Where the arguments of a plan bind the grants.
proof fn lemma_grant_bound(policy: PolicyView, at: int) -> (start: int)
    requires
        0 <= at < policy.grants.len(),
    ensures
        binds_at(
            plan_of(policy).arguments,
            start,
            binding_flag(policy.grants[at].access),
            policy.grants[at].path,
        ),
        start == 8 + argument_start(
            plan_operations(policy),
            with_binds(private_operations(policy), policy.grants.take(at + 1)).len() - 1,
        ),
        with_binds(private_operations(policy), policy.grants.take(at + 1)).len() - 1
            < plan_operations(policy).len(),
        with_binds(private_operations(policy), policy.grants.take(at + 1)).len() - 1
            >= private_operations(policy).len(),
{
    let private = private_operations(policy);
    let place = lemma_bind_placed(private, policy.grants, at);
    lemma_plan_extends(policy);
    lemma_plan_argument(policy, place);
    let own = operation_arguments(plan_operations(policy)[place]);
    let start = 8 + argument_start(plan_operations(policy), place);
    assert(own[0] == plan_of(policy).arguments[start + 0]);
    assert(own[1] == plan_of(policy).arguments[start + 1]);
    assert(own[2] == plan_of(policy).arguments[start + 2]);
    start
}

/// Every grant of a policy is bound to its own path in the sandbox: what may be written under
/// `--bind`, and what may only be read under `--ro-bind`.
pub proof fn grants_are_bound_with_their_access(policy: PolicyView, at: int)
    requires
        0 <= at < policy.grants.len(),
    ensures
        policy.grants[at].access == SandboxFilesystemAccess::ReadWrite ==> exists|start: int|
            #[trigger] binds_at(
                plan_of(policy).arguments,
                start,
                encode_utf8("--bind"@),
                policy.grants[at].path,
            ),
        policy.grants[at].access == SandboxFilesystemAccess::ReadOnly ==> exists|start: int|
            #[trigger] binds_at(
                plan_of(policy).arguments,
                start,
                encode_utf8("--ro-bind"@),
                policy.grants[at].path,
            ),
{
    let start = lemma_grant_bound(policy, at);
}

/// A later grant is bound behind an earlier one, so that it lies over it.
pub proof fn later_grants_lie_over_earlier_ones(policy: PolicyView, early: int, late: int)
    requires
        0 <= early < late < policy.grants.len(),
    ensures
        exists|first: int, second: int|
            first + 2 < second && #[trigger] binds_at(
                plan_of(policy).arguments,
                first,
                binding_flag(policy.grants[early].access),
                policy.grants[early].path,
            ) && #[trigger] binds_at(
                plan_of(policy).arguments,
                second,
                binding_flag(policy.grants[late].access),
                policy.grants[late].path,
            ),
{
    let private = private_operations(policy);
    let first = lemma_grant_bound(policy, early);
    let second = lemma_grant_bound(policy, late);
    lemma_binds_grow(private, policy.grants, early + 1, late + 1);
    let place = with_binds(private, policy.grants.take(early + 1)).len() - 1;
    lemma_starts_ordered(
        plan_operations(policy),
        place,
        with_binds(private, policy.grants.take(late + 1)).len() - 1,
    );
    lemma_plan_extends(policy);
    let again = lemma_bind_placed(private, policy.grants, early);
    assert(operation_arguments(plan_operations(policy)[place]).len() == 3);
}

/// The arguments of a plan start with what keeps the sandbox apart from the host: it ends with its
/// parent, has a session of its own, users, processes, network, communication and host name of its
/// own, and no variables.
pub proof fn plans_isolate(policy: PolicyView)
    ensures
        plan_of(policy).arguments.len() > 8,
        plan_of(policy).arguments.take(8) == seq![
            encode_utf8("--die-with-parent"@),
            encode_utf8("--new-session"@),
            encode_utf8("--unshare-user"@),
            encode_utf8("--unshare-pid"@),
            encode_utf8("--unshare-net"@),
            encode_utf8("--unshare-ipc"@),
            encode_utf8("--unshare-uts"@),
            encode_utf8("--clearenv"@),
        ],
{
    lemma_plan_argument(policy, plan_operations(policy).len() - 1);
    assert(plan_of(policy).arguments.take(8) =~= isolation_arguments());
}

/// The directories behind `operations` end with an empty one at `path`.
proof fn lemma_private_ends(operations: Seq<OperationView>, path: Seq<u8>)
    ensures
        operations.len() < with_private(operations, path).len(),
        with_private(operations, path).last() == (OperationView::PrivateTmpfs { path }),
        forall|i: int|
            0 <= i < operations.len() ==> #[trigger] with_private(operations, path)[i]
                == operations[i],
{
    lemma_directories_extend(operations, directories_above(path));
}

/// The private directories are empty ones of the sandbox, and every grant is bound behind them.
#[verifier::rlimit(40)]
pub proof fn private_directories_come_first(policy: PolicyView)
    ensures
        exists|home: int, temp: int|
            home + 1 < temp && #[trigger] mounts_at(
                plan_of(policy).arguments,
                home,
                encode_utf8("--tmpfs"@),
                policy.private_home,
            ) && #[trigger] mounts_at(
                plan_of(policy).arguments,
                temp,
                encode_utf8("--tmpfs"@),
                policy.private_temp,
            ) && forall|at: int|
                0 <= at < policy.grants.len() ==> exists|start: int|
                    start > temp + 1 && #[trigger] binds_at(
                        plan_of(policy).arguments,
                        start,
                        binding_flag((#[trigger] policy.grants[at]).access),
                        policy.grants[at].path,
                    ),
{
    let operations = plan_operations(policy);
    let first = with_private(Seq::empty(), policy.private_home);
    let private = private_operations(policy);
    lemma_private_ends(Seq::empty(), policy.private_home);
    lemma_private_ends(first, policy.private_temp);
    lemma_binds_extend(private, policy.grants);
    lemma_plan_extends(policy);
    let bound = with_binds(private, policy.grants);
    let early = first.len() - 1;
    let late = private.len() - 1;
    assert(operations[early] == bound[early] && bound[early] == private[early] && private[early]
        == first[early]);
    assert(operations[late] == bound[late] && bound[late] == private[late]);
    lemma_plan_argument(policy, early);
    lemma_plan_argument(policy, late);
    let home = 8 + argument_start(operations, early);
    let temp = 8 + argument_start(operations, late);
    assert(operation_arguments(operations[early])[0] == plan_of(policy).arguments[home + 0]);
    assert(operation_arguments(operations[early])[1] == plan_of(policy).arguments[home + 1]);
    assert(operation_arguments(operations[late])[0] == plan_of(policy).arguments[temp + 0]);
    assert(operation_arguments(operations[late])[1] == plan_of(policy).arguments[temp + 1]);
    lemma_starts_ordered(operations, early, late);
    assert(mounts_at(
        plan_of(policy).arguments,
        home,
        encode_utf8("--tmpfs"@),
        policy.private_home,
    ));
    assert(mounts_at(
        plan_of(policy).arguments,
        temp,
        encode_utf8("--tmpfs"@),
        policy.private_temp,
    ));
    assert forall|at: int| 0 <= at < policy.grants.len() implies exists|start: int|
        start > temp + 1 && #[trigger] binds_at(
            plan_of(policy).arguments,
            start,
            binding_flag((#[trigger] policy.grants[at]).access),
            policy.grants[at].path,
        ) by {
        let start = lemma_grant_bound(policy, at);
        let place = with_binds(private, policy.grants.take(at + 1)).len() - 1;
        lemma_starts_ordered(operations, late, place);
    }
}

/// Where the process table is set up, behind the grants.
proof fn lemma_proc_placed(policy: PolicyView) -> (place: int)
    ensures
        with_binds(private_operations(policy), policy.grants).len() <= place
            < plan_operations(policy).len(),
        plan_operations(policy)[place] == (OperationView::ProcFilesystem {
            path: encode_utf8("/proc"@),
        }),
        plan_operations(policy).last() == (OperationView::DeviceFilesystem {
            path: encode_utf8("/dev"@),
        }),
{
    let bound = with_binds(private_operations(policy), policy.grants);
    with_directory(bound, encode_utf8("/proc"@)).len() as int
}

/// An operation with one path stands in the arguments as its flag and the path.
proof fn lemma_mounted(policy: PolicyView, place: int)
    requires
        0 <= place < plan_operations(policy).len(),
        !(plan_operations(policy)[place] is ReadOnlyBind),
        !(plan_operations(policy)[place] is ReadWriteBind),
    ensures
        mounts_at(
            plan_of(policy).arguments,
            8 + argument_start(plan_operations(policy), place),
            operation_arguments(plan_operations(policy)[place])[0],
            operation_arguments(plan_operations(policy)[place])[1],
        ),
        operation_arguments(plan_operations(policy)[place]).len() == 2,
{
    lemma_plan_argument(policy, place);
    let own = operation_arguments(plan_operations(policy)[place]);
    let start = 8 + argument_start(plan_operations(policy), place);
    assert(own[0] == plan_of(policy).arguments[start + 0]);
    assert(own[1] == plan_of(policy).arguments[start + 1]);
}

/// A grant is bound before what is set up behind the grants.
proof fn lemma_grant_before(policy: PolicyView, grant: int, place: int)
    requires
        0 <= grant < policy.grants.len(),
        with_binds(private_operations(policy), policy.grants).len() <= place
            < plan_operations(policy).len(),
    ensures
        argument_start(
            plan_operations(policy),
            with_binds(private_operations(policy), policy.grants.take(grant + 1)).len() - 1,
        ) + 3 <= argument_start(plan_operations(policy), place),
{
    let operations = plan_operations(policy);
    let private = private_operations(policy);
    let bound = with_binds(private, policy.grants);
    let again = lemma_bind_placed(private, policy.grants, grant);
    assert(operations[again] == bound[again]) by {
        lemma_plan_extends(policy);
    }
    lemma_starts_ordered(operations, again, place);
}

/// The sandbox has the process table of its own processes, set up behind every grant.
pub proof fn process_tables_come_behind_the_grants(policy: PolicyView, grant: int)
    requires
        0 <= grant < policy.grants.len(),
    ensures
        exists|start: int, at: int|
            start + 2 < at && #[trigger] binds_at(
                plan_of(policy).arguments,
                start,
                binding_flag(policy.grants[grant].access),
                policy.grants[grant].path,
            ) && #[trigger] mounts_at(
                plan_of(policy).arguments,
                at,
                encode_utf8("--proc"@),
                encode_utf8("/proc"@),
            ),
{
    let place = lemma_proc_placed(policy);
    lemma_mounted(policy, place);
    let start = lemma_grant_bound(policy, grant);
    lemma_grant_before(policy, grant, place);
}

/// The sandbox has devices of its own, set up last.
pub proof fn devices_come_last(policy: PolicyView)
    ensures
        mounts_at(
            plan_of(policy).arguments,
            plan_of(policy).arguments.len() - 2,
            encode_utf8("--dev"@),
            encode_utf8("/dev"@),
        ),
{
    let operations = plan_operations(policy);
    let place = lemma_proc_placed(policy);
    let last = operations.len() - 1;
    lemma_arguments_split(operations, last);
    lemma_mounted(policy, last);
}

/// Every path that an operation names is absolute.
pub open spec fn names_absolute(operations: Seq<OperationView>) -> bool {
    forall|i: int| 0 <= i < operations.len() ==> is_absolute_path(path_of(#[trigger] operations[i]))
}

pub open spec fn path_of(operation: OperationView) -> Seq<u8> {
    match operation {
        OperationView::CreateDirectory { path } => path,
        OperationView::DeviceFilesystem { path } => path,
        OperationView::PrivateTmpfs { path } => path,
        OperationView::ProcFilesystem { path } => path,
        OperationView::ReadOnlyBind { path } => path,
        OperationView::ReadWriteBind { path } => path,
    }
}

proof fn lemma_above_absolute(path: Seq<u8>)
    requires
        is_absolute_path(path),
    ensures
        forall|i: int|
            0 <= i < directories_above(path).len() ==> is_absolute_path(
                #[trigger] directories_above(path)[i],
            ),
    decreases path.len(),
{
    if let Some(parent) = parent_of(path) {
        lemma_parent_shorter(path);
        parent_drops_the_last_component(path);
        if has_body(parent) {
            lemma_above_absolute(parent);
            let above = directories_above(parent);
            assert(directories_above(path) == above.push(parent));
            assert forall|i: int| 0 <= i < above.push(parent).len() implies is_absolute_path(
                #[trigger] above.push(parent)[i],
            ) by {
                if i < above.len() {
                    assert(is_absolute_path(above[i]));
                }
            }
        }
    }
}

proof fn lemma_directories_absolute(operations: Seq<OperationView>, paths: Seq<Seq<u8>>)
    requires
        names_absolute(operations),
        forall|i: int| 0 <= i < paths.len() ==> is_absolute_path(#[trigger] paths[i]),
    ensures
        names_absolute(with_directories(operations, paths)),
    decreases paths.len(),
{
    if paths.len() > 0 {
        assert forall|i: int| 0 <= i < paths.drop_last().len() implies is_absolute_path(
            #[trigger] paths.drop_last()[i],
        ) by {
            assert(paths.drop_last()[i] == paths[i]);
        }
        assert(is_absolute_path(paths[paths.len() - 1]));
        lemma_directories_absolute(operations, paths.drop_last());
    }
}

proof fn lemma_binds_absolute(operations: Seq<OperationView>, grants: Seq<GrantView>)
    requires
        names_absolute(operations),
        forall|i: int| 0 <= i < grants.len() ==> is_absolute_path((#[trigger] grants[i]).path),
    ensures
        names_absolute(with_binds(operations, grants)),
    decreases grants.len(),
{
    if grants.len() > 0 {
        let shorter = grants.drop_last();
        assert forall|i: int| 0 <= i < shorter.len() implies is_absolute_path(
            (#[trigger] shorter[i]).path,
        ) by {
            assert(shorter[i] == grants[i]);
        }
        assert(is_absolute_path(grants[grants.len() - 1].path));
        lemma_binds_absolute(operations, shorter);
        lemma_above_absolute(grants.last().path);
        lemma_directories_absolute(
            with_binds(operations, shorter),
            directories_above(grants.last().path),
        );
    }
}

proof fn lemma_private_absolute(operations: Seq<OperationView>, path: Seq<u8>)
    requires
        names_absolute(operations),
        is_absolute_path(path),
    ensures
        names_absolute(with_private(operations, path)),
{
    lemma_above_absolute(path);
    lemma_directories_absolute(operations, directories_above(path));
}

/// The bytes of a flag.
proof fn lemma_flags()
    ensures
        ({
            let bind = encode_utf8("--bind"@);
            let read_only = encode_utf8("--ro-bind"@);
            &&& bind.len() == 6 && bind[0] == 45 && bind[2] == 98
            &&& read_only.len() == 9 && read_only[0] == 45 && read_only[2] == 114
            &&& encode_utf8("--dir"@).len() == 5
            &&& encode_utf8("--dev"@).len() == 5
            &&& encode_utf8("--tmpfs"@).len() == 7
            &&& encode_utf8("--proc"@).len() == 6 && encode_utf8("--proc"@)[2] == 112
            &&& encode_utf8("/proc"@)[0] == 47 && encode_utf8("/proc"@).len() == 5
            &&& encode_utf8("/dev"@)[0] == 47 && encode_utf8("/dev"@).len() == 4
            &&& forall|i: int|
                0 <= i < 8 ==> (#[trigger] isolation_arguments()[i]).len() > 9
        }),
{
    reveal_strlit("--bind");
    reveal_strlit("--ro-bind");
    reveal_strlit("--dir");
    reveal_strlit("--dev");
    reveal_strlit("--tmpfs");
    reveal_strlit("--proc");
    reveal_strlit("/proc");
    reveal_strlit("/dev");
    reveal_strlit("--die-with-parent");
    reveal_strlit("--new-session");
    reveal_strlit("--unshare-user");
    reveal_strlit("--unshare-pid");
    reveal_strlit("--unshare-net");
    reveal_strlit("--unshare-ipc");
    reveal_strlit("--unshare-uts");
    reveal_strlit("--clearenv");
    is_ascii_chars_encode_utf8("--bind"@);
    is_ascii_chars_encode_utf8("--ro-bind"@);
    is_ascii_chars_encode_utf8("--dir"@);
    is_ascii_chars_encode_utf8("--dev"@);
    is_ascii_chars_encode_utf8("--tmpfs"@);
    is_ascii_chars_encode_utf8("--proc"@);
    is_ascii_chars_encode_utf8("/proc"@);
    is_ascii_chars_encode_utf8("/dev"@);
    is_ascii_chars_encode_utf8("--die-with-parent"@);
    is_ascii_chars_encode_utf8("--new-session"@);
    is_ascii_chars_encode_utf8("--unshare-user"@);
    is_ascii_chars_encode_utf8("--unshare-pid"@);
    is_ascii_chars_encode_utf8("--unshare-net"@);
    is_ascii_chars_encode_utf8("--unshare-ipc"@);
    is_ascii_chars_encode_utf8("--unshare-uts"@);
    is_ascii_chars_encode_utf8("--clearenv"@);
    assert("--bind"@[0] == '-' && "--bind"@[2] == 'b');
    assert("--ro-bind"@[0] == '-' && "--ro-bind"@[2] == 'r');
    assert("--proc"@[2] == 'p');
    assert("/proc"@[0] == '/' && "/dev"@[0] == '/');
}

/// A bind among the operations stands for a grant.
proof fn lemma_binds_granted(operations: Seq<OperationView>, grants: Seq<GrantView>, place: int) -> (at:
    int)
    requires
        operations.len() <= place < with_binds(operations, grants).len(),
        with_binds(operations, grants)[place] is ReadOnlyBind || with_binds(
            operations,
            grants,
        )[place] is ReadWriteBind,
    ensures
        0 <= at < grants.len(),
        grants[at].path == path_of(with_binds(operations, grants)[place]),
        grants[at].access == SandboxFilesystemAccess::ReadWrite <==> with_binds(
            operations,
            grants,
        )[place] is ReadWriteBind,
    decreases grants.len(),
{
    let before = with_binds(operations, grants.drop_last());
    lemma_directories_extend(before, directories_above(grants.last().path));
    if place == with_binds(operations, grants).len() - 1 {
        grants.len() - 1
    } else {
        lemma_binds_granted(operations, grants.drop_last(), place)
    }
}

proof fn lemma_private_binds_none(operations: Seq<OperationView>, path: Seq<u8>)
    requires
        forall|i: int|
            0 <= i < operations.len() ==> !((#[trigger] operations[i]) is ReadOnlyBind)
                && !(operations[i] is ReadWriteBind),
    ensures
        forall|i: int|
            0 <= i < with_private(operations, path).len() ==> !((#[trigger] with_private(
                operations,
                path,
            )[i]) is ReadOnlyBind) && !(with_private(operations, path)[i] is ReadWriteBind),
{
    lemma_directories_extend(operations, directories_above(path));
}

/// Every operation of a plan names an absolute path, where the policy does.
proof fn lemma_plan_absolute(policy: PolicyView)
    requires
        is_absolute_path(policy.private_home),
        is_absolute_path(policy.private_temp),
        forall|i: int|
            0 <= i < policy.grants.len() ==> is_absolute_path((#[trigger] policy.grants[i]).path),
    ensures
        names_absolute(plan_operations(policy)),
{
    let first = with_private(Seq::empty(), policy.private_home);
    lemma_flags();
    lemma_private_absolute(Seq::empty(), policy.private_home);
    lemma_private_absolute(first, policy.private_temp);
    lemma_binds_absolute(private_operations(policy), policy.grants);
}

/// A bind of a plan stands for a grant.
proof fn lemma_plan_bind_granted(policy: PolicyView, place: int) -> (at: int)
    requires
        0 <= place < plan_operations(policy).len(),
        plan_operations(policy)[place] is ReadOnlyBind || plan_operations(
            policy,
        )[place] is ReadWriteBind,
    ensures
        0 <= at < policy.grants.len(),
        policy.grants[at].path == path_of(plan_operations(policy)[place]),
        policy.grants[at].access == SandboxFilesystemAccess::ReadWrite <==> plan_operations(
            policy,
        )[place] is ReadWriteBind,
{
    let private = private_operations(policy);
    let first = with_private(Seq::empty(), policy.private_home);
    let bound = with_binds(private, policy.grants);
    assert(place < bound.len() && plan_operations(policy)[place] == bound[place]) by {
        lemma_plan_extends(policy);
    }
    lemma_private_binds_none(Seq::empty(), policy.private_home);
    lemma_private_binds_none(first, policy.private_temp);
    lemma_binds_extend(private, policy.grants);
    if place < private.len() {
        assert(bound[place] == private[place]);
    }
    lemma_binds_granted(private, policy.grants, place)
}

proof fn lemma_isolation_binds_nothing(index: int)
    requires
        0 <= index < 8,
    ensures
        isolation_arguments()[index] != encode_utf8("--bind"@),
        isolation_arguments()[index] != encode_utf8("--ro-bind"@),
{
    lemma_flags();
}

/// A binding flag among the arguments of an operation is the first of a bind.
proof fn lemma_flag_first(operation: OperationView, index: int)
    requires
        is_absolute_path(path_of(operation)),
        0 <= index < operation_arguments(operation).len(),
        operation_arguments(operation)[index] == encode_utf8("--bind"@) || operation_arguments(
            operation,
        )[index] == encode_utf8("--ro-bind"@),
    ensures
        index == 0,
        operation_arguments(operation)[index] == encode_utf8("--bind"@)
            ==> operation is ReadWriteBind,
        operation_arguments(operation)[index] == encode_utf8("--ro-bind"@)
            ==> operation is ReadOnlyBind,
{
    lemma_flags();
}

/// An argument that is a binding flag starts the arguments of a bind.
proof fn lemma_flag_of_bind(policy: PolicyView, index: int) -> (place: int)
    requires
        names_absolute(plan_operations(policy)),
        0 <= index < plan_of(policy).arguments.len(),
        plan_of(policy).arguments[index] == encode_utf8("--bind"@) || plan_of(
            policy,
        ).arguments[index] == encode_utf8("--ro-bind"@),
    ensures
        0 <= place < plan_operations(policy).len(),
        index == 8 + argument_start(plan_operations(policy), place),
        plan_of(policy).arguments[index] == encode_utf8("--bind"@) ==> plan_operations(
            policy,
        )[place] is ReadWriteBind,
        plan_of(policy).arguments[index] == encode_utf8("--ro-bind"@) ==> plan_operations(
            policy,
        )[place] is ReadOnlyBind,
{
    let operations = plan_operations(policy);
    let arguments = plan_of(policy).arguments;
    assert(isolation_arguments().len() == 8);
    if index < 8 {
        assert(arguments[index] == isolation_arguments()[index]);
        lemma_isolation_binds_nothing(index);
    }
    let place = lemma_argument_owned(operations, index - 8);
    lemma_plan_argument(policy, place);
    let start = 8 + argument_start(operations, place);
    let own = operation_arguments(operations[place]);
    assert(own[index - start] == arguments[start + (index - start)]);
    assert(is_absolute_path(path_of(operations[place])));
    lemma_flag_first(operations[place], index - start);
    place
}

/// Where an argument is `--bind` or `--ro-bind`, the policy grants the path behind it: for writing
/// under `--bind`, and for reading alone under `--ro-bind`. Nothing else of the host is bound.
pub proof fn only_grants_are_bound(policy: PolicyView, index: int)
    requires
        is_absolute_path(policy.private_home),
        is_absolute_path(policy.private_temp),
        forall|i: int|
            0 <= i < policy.grants.len() ==> is_absolute_path((#[trigger] policy.grants[i]).path),
        0 <= index < plan_of(policy).arguments.len(),
        plan_of(policy).arguments[index] == encode_utf8("--bind"@) || plan_of(
            policy,
        ).arguments[index] == encode_utf8("--ro-bind"@),
    ensures
        exists|at: int|
            0 <= at < policy.grants.len() && binds_at(
                plan_of(policy).arguments,
                index,
                plan_of(policy).arguments[index],
                (#[trigger] policy.grants[at]).path,
            ) && (policy.grants[at].access == SandboxFilesystemAccess::ReadWrite <==> plan_of(
                policy,
            ).arguments[index] == encode_utf8("--bind"@)),
{
    lemma_plan_absolute(policy);
    let place = lemma_flag_of_bind(policy, index);
    let at = lemma_plan_bind_granted(policy, place);
    lemma_plan_argument(policy, place);
    lemma_flags();
    let arguments = plan_of(policy).arguments;
    let own = operation_arguments(plan_operations(policy)[place]);
    assert(own[1] == arguments[index + 1]);
    assert(own[2] == arguments[index + 2]);
    assert(binds_at(arguments, index, arguments[index], policy.grants[at].path));
}

/// The directory that contains `path` is created, unless it is the root.
pub open spec fn is_reachable(operations: Seq<OperationView>, path: Seq<u8>) -> bool {
    parent_of(path) matches Some(parent) ==> has_body(parent) ==> exists|i: int|
        0 <= i < operations.len() && (#[trigger] operations[i]) is CreateDirectory && same_path(
            path_of(operations[i]),
            parent,
        )
}

/// Whatever an operation sets up, the directory that contains it is created before.
pub open spec fn is_well_ordered(operations: Seq<OperationView>) -> bool {
    forall|i: int|
        0 <= i < operations.len() ==> is_reachable(
            operations.take(i),
            path_of(#[trigger] operations[i]),
        )
}

proof fn lemma_push_ordered(operations: Seq<OperationView>, operation: OperationView)
    requires
        is_well_ordered(operations),
        is_reachable(operations, path_of(operation)),
    ensures
        is_well_ordered(operations.push(operation)),
{
    let longer = operations.push(operation);
    assert forall|i: int| 0 <= i < longer.len() implies is_reachable(
        longer.take(i),
        path_of(#[trigger] longer[i]),
    ) by {
        if i < operations.len() {
            assert(longer.take(i) =~= operations.take(i));
            assert(longer[i] == operations[i]);
        } else {
            assert(longer.take(i) =~= operations);
        }
    }
}

proof fn lemma_directory_ordered(operations: Seq<OperationView>, path: Seq<u8>)
    requires
        is_well_ordered(operations),
        is_reachable(operations, path),
    ensures
        is_well_ordered(with_directory(operations, path)),
        is_created(with_directory(operations, path), path),
{
    if !is_created(operations, path) {
        lemma_push_ordered(operations, OperationView::CreateDirectory { path });
        let longer = with_directory(operations, path);
        assert(longer[longer.len() - 1] == (OperationView::CreateDirectory { path }));
    }
}

proof fn lemma_above_ordered(operations: Seq<OperationView>, path: Seq<u8>)
    requires
        is_well_ordered(operations),
    ensures
        is_well_ordered(with_directories(operations, directories_above(path))),
        is_reachable(with_directories(operations, directories_above(path)), path),
    decreases path.len(),
{
    if let Some(parent) = parent_of(path) {
        lemma_parent_shorter(path);
        if has_body(parent) {
            lemma_above_ordered(operations, parent);
            let above = directories_above(path);
            assert(above.drop_last() =~= directories_above(parent));
            let before = with_directories(operations, directories_above(parent));
            lemma_directory_ordered(before, parent);
            let after = with_directory(before, parent);
            let i = choose|i: int|
                0 <= i < after.len() && (#[trigger] after[i]
                    matches OperationView::CreateDirectory { path: created } && same_path(
                    created,
                    parent,
                ));
            assert(after[i] is CreateDirectory && same_path(path_of(after[i]), parent));
        }
    }
}

/// What is reachable stays so when directories are added.
proof fn lemma_reachable_stays(operations: Seq<OperationView>, operation: OperationView, path: Seq<u8>)
    requires
        is_reachable(operations, path),
    ensures
        is_reachable(operations.push(operation), path),
{
    if let Some(parent) = parent_of(path) {
        if has_body(parent) {
            let i = choose|i: int|
                0 <= i < operations.len() && (#[trigger] operations[i]) is CreateDirectory
                    && same_path(path_of(operations[i]), parent);
            assert(operations.push(operation)[i] == operations[i]);
        }
    }
}

proof fn lemma_private_ordered(operations: Seq<OperationView>, path: Seq<u8>)
    requires
        is_well_ordered(operations),
    ensures
        is_well_ordered(with_private(operations, path)),
{
    lemma_above_ordered(operations, path);
    let above = with_directories(operations, directories_above(path));
    lemma_directory_ordered(above, path);
    lemma_reachable_stays(above, OperationView::CreateDirectory { path }, path);
    lemma_push_ordered(with_directory(above, path), OperationView::PrivateTmpfs { path });
}

proof fn lemma_binds_ordered(operations: Seq<OperationView>, grants: Seq<GrantView>)
    requires
        is_well_ordered(operations),
    ensures
        is_well_ordered(with_binds(operations, grants)),
    decreases grants.len(),
{
    if grants.len() > 0 {
        let before = with_binds(operations, grants.drop_last());
        lemma_binds_ordered(operations, grants.drop_last());
        lemma_above_ordered(before, grants.last().path);
        lemma_push_ordered(
            with_directories(before, directories_above(grants.last().path)),
            bind_of(grants.last()),
        );
    }
}

/// A path with one component lies in the root.
proof fn lemma_in_the_root(path: Seq<u8>)
    requires
        path.len() > 1,
        path[0] == 47,
        forall|i: int| 1 <= i < path.len() ==> #[trigger] path[i] != 47 && path[i] != 46,
    ensures
        parent_of(path) matches Some(parent) ==> !has_body(parent),
{
    assert(trimmed(path) == path);
    lemma_without_last(path, 1);
    let root = path.take(1);
    assert(root =~= seq![47u8]);
    assert(root.drop_last() =~= Seq::empty());
    reveal_with_fuel(trimmed, 3);
}

proof fn lemma_without_last(path: Seq<u8>, start: int)
    requires
        1 <= start <= path.len(),
        path[start - 1] == 47,
        forall|i: int| start <= i < path.len() ==> #[trigger] path[i] != 47,
    ensures
        without_last_piece(path) == path.take(start),
    decreases path.len(),
{
    if path.len() > start {
        let shorter = path.drop_last();
        assert forall|i: int| start <= i < shorter.len() implies #[trigger] shorter[i] != 47 by {
            assert(shorter[i] == path[i]);
        }
        assert(path[path.len() - 1] != 47);
        lemma_without_last(shorter, start);
        assert(shorter.take(start) =~= path.take(start));
    } else {
        assert(path.take(start) =~= path);
    }
}

/// A plan creates the directory that contains a path before anything is set up at the path.
#[verifier::rlimit(40)]
pub proof fn plans_create_parents_first(policy: PolicyView)
    ensures
        is_well_ordered(plan_of(policy).operations),
{
    let home = with_private(Seq::empty(), policy.private_home);
    let private = with_private(home, policy.private_temp);
    let bound = with_binds(private, policy.grants);
    let proc = encode_utf8("/proc"@);
    let dev = encode_utf8("/dev"@);
    lemma_private_ordered(Seq::empty(), policy.private_home);
    lemma_private_ordered(home, policy.private_temp);
    lemma_binds_ordered(private, policy.grants);
    reveal_strlit("/proc");
    reveal_strlit("/dev");
    is_ascii_chars_encode_utf8("/proc"@);
    is_ascii_chars_encode_utf8("/dev"@);
    assert forall|i: int| 1 <= i < proc.len() implies #[trigger] proc[i] != 47 && proc[i] != 46 by {
        assert("/proc"@[i] as u8 == proc[i]);
    }
    assert forall|i: int| 1 <= i < dev.len() implies #[trigger] dev[i] != 47 && dev[i] != 46 by {
        assert("/dev"@[i] as u8 == dev[i]);
    }
    assert("/proc"@[0] as u8 == proc[0]);
    assert("/dev"@[0] as u8 == dev[0]);
    lemma_in_the_root(proc);
    lemma_in_the_root(dev);
    lemma_directory_ordered(bound, proc);
    let with_proc = with_directory(bound, proc).push(OperationView::ProcFilesystem { path: proc });
    lemma_push_ordered(with_directory(bound, proc), OperationView::ProcFilesystem { path: proc });
    lemma_directory_ordered(with_proc, dev);
    lemma_push_ordered(with_directory(with_proc, dev), OperationView::DeviceFilesystem { path: dev });
}

} // verus!
