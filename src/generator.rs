use vstd::prelude::*;
use crate::config::{devices_view, join_path, joined, Device, DeviceView};
use crate::text::{decimal, decimal_string};

verus! {

/// One change to the filesystem that the generator asks for.
pub enum Action {
    /// Write `contents` to the file at `path`, creating its parents.
    WriteFile { path: String, contents: String },
    /// Create a link at `link` that points to `target`, creating its parents.
    Symlink { target: String, link: String },
}

/// `Action` with its texts as sequences of characters.
pub enum ActionView {
    WriteFile(Seq<char>, Seq<char>),
    Symlink(Seq<char>, Seq<char>),
}

impl View for Action {
    type V = ActionView;

    open spec fn view(&self) -> ActionView {
        match self {
            Action::WriteFile { path, contents } => ActionView::WriteFile(path@, contents@),
            Action::Symlink { target, link } => ActionView::Symlink(target@, link@),
        }
    }
}

pub open spec fn actions_view(v: Seq<Action>) -> Seq<ActionView> {
    v.map_values(|a: Action| a@)
}

pub open spec fn service_name(name: Seq<char>) -> Seq<char> {
    "swap-create@"@ + name + ".service"@
}

pub open spec fn swap_name(name: Seq<char>) -> Seq<char> {
    "dev-"@ + name + ".swap"@
}

/// The one-shot service that sizes the device and formats it as swap.
pub open spec fn service_text(root: Seq<char>, name: Seq<char>, disksize: nat) -> Seq<char> {
    "[Unit]\nDescription=Create swap on "@ + root
        + "dev/%i\nWants=systemd-modules-load.service\nAfter=systemd-modules-load.service\nAfter=dev-"@
        + name
        + ".device\nDefaultDependencies=false\n\n[Service]\nType=oneshot\nExecStartPre=-modprobe zram\nExecStart=sh -c 'echo "@
        + decimal(disksize) + " >"@ + root + "sys/block/%i/disksize'\nExecStart=mkswap "@ + root
        + "dev/%i\n"@
}

/// The swap unit that activates the device once the service has run.
pub open spec fn swap_text(root: Seq<char>, name: Seq<char>) -> Seq<char> {
    "[Unit]\nDescription=Compressed swap on "@ + root + "dev/"@ + name + "\nRequires="@
        + service_name(name) + "\nAfter="@ + service_name(name) + "\n\n[Swap]\nWhat="@ + root
        + "dev/"@ + name + "\nOptions=pri=100\n"@
}

/// The two unit files and the activation link of one device.
pub open spec fn device_actions(root: Seq<char>, out: Seq<char>, d: DeviceView) -> Seq<ActionView> {
    seq![
        ActionView::WriteFile(joined(out, service_name(d.name)), service_text(root, d.name, d.disksize)),
        ActionView::WriteFile(joined(out, swap_name(d.name)), swap_text(root, d.name)),
        ActionView::Symlink("../"@ + swap_name(d.name), joined(joined(out, "swap.target.wants"@), swap_name(d.name))),
    ]
}

/// The actions of all devices, in order.
pub open spec fn devices_actions(root: Seq<char>, out: Seq<char>, ds: Seq<DeviceView>) -> Seq<ActionView>
    decreases ds.len(),
{
    if ds.len() == 0 {
        Seq::empty()
    } else {
        devices_actions(root, out, ds.drop_last()) + device_actions(root, out, ds.last())
    }
}

/// The request to load the kernel module at boot.
pub open spec fn module_load_action(root: Seq<char>) -> ActionView {
    ActionView::WriteFile(joined(root, "run/modules-load.d/zram.conf"@), "zram\n"@)
}

/// Everything one run writes: nothing inside a container; otherwise the
/// actions of each device, then the module load request if there was a device.
pub open spec fn generator_plan(
    root: Seq<char>,
    out: Seq<char>,
    ds: Seq<DeviceView>,
    in_container: bool,
) -> Seq<ActionView> {
    if in_container || ds.len() == 0 {
        Seq::empty()
    } else {
        devices_actions(root, out, ds).push(module_load_action(root))
    }
}

fn service_contents(root: &str, d: &Device) -> (r: String)
    ensures
        r@ == service_text(root@, d.name@, d.disksize as nat),
{
    let mut s = String::from_str("[Unit]\nDescription=Create swap on ");
    s.append(root);
    s.append(
        "dev/%i\nWants=systemd-modules-load.service\nAfter=systemd-modules-load.service\nAfter=dev-",
    );
    s.append(d.name.as_str());
    s.append(
        ".device\nDefaultDependencies=false\n\n[Service]\nType=oneshot\nExecStartPre=-modprobe zram\nExecStart=sh -c 'echo ",
    );
    let size = decimal_string(d.disksize);
    s.append(size.as_str());
    s.append(" >");
    s.append(root);
    s.append("sys/block/%i/disksize'\nExecStart=mkswap ");
    s.append(root);
    s.append("dev/%i\n");
    s
}

fn service_file_name(name: &str) -> (r: String)
    ensures
        r@ == service_name(name@),
{
    let mut s = String::from_str("swap-create@");
    s.append(name);
    s.append(".service");
    s
}

fn swap_file_name(name: &str) -> (r: String)
    ensures
        r@ == swap_name(name@),
{
    let mut s = String::from_str("dev-");
    s.append(name);
    s.append(".swap");
    s
}

fn swap_contents(root: &str, d: &Device) -> (r: String)
    ensures
        r@ == swap_text(root@, d.name@),
{
    let service = service_file_name(d.name.as_str());
    let mut s = String::from_str("[Unit]\nDescription=Compressed swap on ");
    s.append(root);
    s.append("dev/");
    s.append(d.name.as_str());
    s.append("\nRequires=");
    s.append(service.as_str());
    s.append("\nAfter=");
    s.append(service.as_str());
    s.append("\n\n[Swap]\nWhat=");
    s.append(root);
    s.append("dev/");
    s.append(d.name.as_str());
    s.append("\nOptions=pri=100\n");
    s
}

/// Adds the two unit files and the activation link of one device to `plan`.
pub fn handle_device(root: &str, output_directory: &str, device: &Device, plan: &mut Vec<Action>)
    ensures
        actions_view(final(plan)@) == actions_view(old(plan)@) + device_actions(
            root@,
            output_directory@,
            device@,
        ),
{
    let service = service_file_name(device.name.as_str());
    let swap = swap_file_name(device.name.as_str());
    let ghost before = plan@;
    plan.push(
        Action::WriteFile {
            path: join_path(output_directory, service.as_str()),
            contents: service_contents(root, device),
        },
    );
    plan.push(
        Action::WriteFile {
            path: join_path(output_directory, swap.as_str()),
            contents: swap_contents(root, device),
        },
    );
    let wants = join_path(output_directory, "swap.target.wants");
    let mut target = String::from_str("../");
    target.append(swap.as_str());
    plan.push(Action::Symlink { target, link: join_path(wants.as_str(), swap.as_str()) });
    assert(actions_view(plan@) =~= actions_view(before) + device_actions(
        root@,
        output_directory@,
        device@,
    ));
}

/// Plans the files and links for the devices, in order, and the module load
/// request when there is at least one device; nothing inside a container.
pub fn run_generator(
    root: &str,
    devices: &Vec<Device>,
    output_directory: &str,
    in_container: bool,
) -> (r: Vec<Action>)
    ensures
        actions_view(r@) == generator_plan(
            root@,
            output_directory@,
            devices_view(devices@),
            in_container,
        ),
{
    let mut plan: Vec<Action> = Vec::new();
    if in_container {
        assert(actions_view(plan@) =~= Seq::empty());
        return plan;
    }
    let mut i: usize = 0;
    assert(devices_view(devices@).take(0) =~= Seq::empty());
    assert(actions_view(plan@) =~= Seq::empty());
    while i < devices.len()
        invariant
            i <= devices@.len(),
            actions_view(plan@) == devices_actions(
                root@,
                output_directory@,
                devices_view(devices@).take(i as int),
            ),
        decreases devices@.len() - i,
    {
        let ghost ds = devices_view(devices@);
        assert(ds.take(i + 1).drop_last() =~= ds.take(i as int));
        assert(ds.take(i + 1).last() == devices@[i as int]@);
        handle_device(root, output_directory, &devices[i], &mut plan);
        i = i + 1;
    }
    assert(devices_view(devices@).take(devices@.len() as int) =~= devices_view(devices@));
    if devices.len() > 0 {
        let ghost before = plan@;
        plan.push(
            Action::WriteFile {
                path: join_path(root, "run/modules-load.d/zram.conf"),
                contents: String::from_str("zram\n"),
            },
        );
        assert(actions_view(plan@) =~= actions_view(before).push(module_load_action(root@)));
    } else {
        assert(actions_view(plan@) =~= Seq::empty());
    }
    plan
}

/// The plan is a function of the run's inputs: two runs on the same inputs
/// write the same files with the same contents and the same link targets.
pub proof fn lemma_repeatable(
    root: Seq<char>,
    out: Seq<char>,
    ds: Seq<DeviceView>,
    in_container: bool,
    first: Seq<Action>,
    second: Seq<Action>,
)
    requires
        actions_view(first) == generator_plan(root, out, ds, in_container),
        actions_view(second) == generator_plan(root, out, ds, in_container),
    ensures
        actions_view(first) == actions_view(second),
{
}

/// The module load request is written if and only if at least one device
/// is set up, and it holds the module name and a newline.
pub proof fn lemma_module_load_iff_devices(
    root: Seq<char>,
    out: Seq<char>,
    ds: Seq<DeviceView>,
    in_container: bool,
)
    ensures
        generator_plan(root, out, ds, in_container).contains(module_load_action(root)) <==> (
        !in_container && ds.len() > 0),
        module_load_action(root) == ActionView::WriteFile(
            joined(root, "run/modules-load.d/zram.conf"@),
            "zram\n"@,
        ),
{
    let p = generator_plan(root, out, ds, in_container);
    if !in_container && ds.len() > 0 {
        assert(p[p.len() - 1] == module_load_action(root));
    }
}

} // verus!
