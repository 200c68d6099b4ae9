use vstd::prelude::*;
use crate::generator::{actions_view, generator_plan, run_generator, Action, ActionView};
use crate::ini_file::{first_value, ini_document, load_ini, section_get, sections_view, IniSection};
use crate::meminfo::{mem_total_spec, parse_mem_total, MemInfoError};
use crate::size::{
    disksize, disksize_spec, fits_memory, parse_fraction, parse_fraction_spec, size_mb, within_limit,
    Fraction, FractionView, MemoryLimit,
};
use crate::text::{all_digits, is_digit, parse_u64, parse_u64_spec, same_text, starts_with, NumberError};

verus! {

/// The memory limit of a device that sets none, in megabytes.
pub const DEFAULT_MEMORY_LIMIT_MB: u64 = 2048;

/// A configured compressed swap device.
pub struct Device {
    pub name: String,
    pub memory_limit_mb: MemoryLimit,
    pub zram_fraction: Fraction,
    /// The size in bytes; set once the device has passed the memory check.
    pub disksize: u64,
}

impl Device {
    /// A device with the default limit and ratio, not yet sized.
    pub fn new(name: String) -> (r: Device)
        ensures
            r@ == (DeviceView {
                name: name@,
                memory_limit_mb: MemoryLimit::Bounded(DEFAULT_MEMORY_LIMIT_MB),
                zram_fraction: default_fraction(),
                disksize: 0,
            }),
    {
        Device {
            name,
            memory_limit_mb: MemoryLimit::Bounded(DEFAULT_MEMORY_LIMIT_MB),
            zram_fraction: Fraction { negative: false, digits: vec!['2', '5'], scale: -2 },
            disksize: 0,
        }
    }
}

pub struct DeviceView {
    pub name: Seq<char>,
    pub memory_limit_mb: MemoryLimit,
    pub zram_fraction: FractionView,
    pub disksize: nat,
}

impl View for Device {
    type V = DeviceView;

    open spec fn view(&self) -> DeviceView {
        DeviceView {
            name: self.name@,
            memory_limit_mb: self.memory_limit_mb,
            zram_fraction: self.zram_fraction@,
            disksize: self.disksize as nat,
        }
    }
}

pub open spec fn devices_view(v: Seq<Device>) -> Seq<DeviceView> {
    v.map_values(|d: Device| d@)
}

/// What the generator is asked to do.
pub enum ModuleConfig {
    Generator { output_directory: String },
    DeviceSetup { name: String },
}

/// Everything that went wrong, each with what a message needs.
#[derive(Debug)]
pub enum ConfigError {
    /// Neither one nor three positional arguments were given.
    Arguments,
    /// `--setup-device` came without a name that starts with `zram`.
    SetupDeviceName,
    /// The configuration file is not a valid ini document.
    Syntax { path: String, error: ini::ParseError },
    /// A `memory-limit` value is neither `none` nor an unsigned integer.
    MemoryLimit { path: String, section: String, value: String, reason: NumberError },
    /// A `zram-fraction` value is not a decimal ratio.
    Fraction { path: String, section: String, value: String },
    /// The device size does not fit in 64 bits.
    SizeOverflow { section: String },
    /// The meminfo file could not be read.
    MemInfoUnreadable { path: String },
    /// The meminfo file does not state the total memory.
    MemInfo { path: String, problem: MemInfoError },
    /// Setting up a single device is not provided.
    SetupUnimplemented { name: String },
}

/// A `ConfigError` with its texts as sequences of characters.
pub enum ConfigFault {
    Arguments,
    SetupDeviceName,
    Syntax { path: Seq<char> },
    MemoryLimit { path: Seq<char>, section: Seq<char>, value: Seq<char>, reason: NumberError },
    Fraction { path: Seq<char>, section: Seq<char>, value: Seq<char> },
    SizeOverflow { section: Seq<char> },
    MemInfoUnreadable { path: Seq<char> },
    MemInfo { path: Seq<char>, problem: MemInfoError },
    SetupUnimplemented { name: Seq<char> },
}

impl View for ConfigError {
    type V = ConfigFault;

    open spec fn view(&self) -> ConfigFault {
        match self {
            ConfigError::Arguments => ConfigFault::Arguments,
            ConfigError::SetupDeviceName => ConfigFault::SetupDeviceName,
            ConfigError::Syntax { path, .. } => ConfigFault::Syntax { path: path@ },
            ConfigError::MemoryLimit { path, section, value, reason } => ConfigFault::MemoryLimit {
                path: path@,
                section: section@,
                value: value@,
                reason: *reason,
            },
            ConfigError::Fraction { path, section, value } => ConfigFault::Fraction {
                path: path@,
                section: section@,
                value: value@,
            },
            ConfigError::SizeOverflow { section } => ConfigFault::SizeOverflow { section: section@ },
            ConfigError::MemInfoUnreadable { path } => ConfigFault::MemInfoUnreadable { path: path@ },
            ConfigError::MemInfo { path, problem } => ConfigFault::MemInfo {
                path: path@,
                problem: *problem,
            },
            ConfigError::SetupUnimplemented { name } => ConfigFault::SetupUnimplemented {
                name: name@,
            },
        }
    }
}

/// Whether a section title names a swap device.
pub open spec fn is_device_title(n: Seq<char>) -> bool {
    "zram"@.len() <= n.len() && n.take("zram"@.len() as int) == "zram"@
}

pub open spec fn default_fraction() -> FractionView {
    FractionView { negative: false, digits: seq!['2', '5'], scale: -2 }
}

/// The memory limit that a section sets.
pub open spec fn section_limit(
    path: Seq<char>,
    name: Seq<char>,
    e: Seq<(Seq<char>, Seq<char>)>,
) -> Result<MemoryLimit, ConfigFault> {
    match first_value(e, "memory-limit"@) {
        None => Ok(MemoryLimit::Bounded(DEFAULT_MEMORY_LIMIT_MB)),
        Some(v) => if v == "none"@ {
            Ok(MemoryLimit::Unlimited)
        } else {
            match parse_u64_spec(v) {
                Ok(l) => Ok(MemoryLimit::Bounded(l)),
                Err(k) => Err(ConfigFault::MemoryLimit { path, section: name, value: v, reason: k }),
            }
        },
    }
}

/// The ratio of memory that a section asks for.
pub open spec fn section_fraction(
    path: Seq<char>,
    name: Seq<char>,
    e: Seq<(Seq<char>, Seq<char>)>,
) -> Result<FractionView, ConfigFault> {
    match first_value(e, "zram-fraction"@) {
        None => Ok(default_fraction()),
        Some(v) => match parse_fraction_spec(v) {
            Some(f) => Ok(f),
            None => Err(ConfigFault::Fraction { path, section: name, value: v }),
        },
    }
}

/// What one section of the configuration yields on a machine with `mem_kb`
/// kilobytes of memory: an error, nothing, or a device with its size.
pub open spec fn section_outcome(
    path: Seq<char>,
    sec: (Option<Seq<char>>, Seq<(Seq<char>, Seq<char>)>),
    mem_kb: nat,
) -> Result<Option<DeviceView>, ConfigFault> {
    match sec.0 {
        None => Ok(None),
        Some(name) => if !is_device_title(name) {
            Ok(None)
        } else {
            match section_limit(path, name, sec.1) {
                Err(e) => Err(e),
                Ok(limit) => match section_fraction(path, name, sec.1) {
                    Err(e) => Err(e),
                    Ok(f) => if !within_limit(limit, mem_kb) {
                        Ok(None)
                    } else if disksize_spec(f, mem_kb) > u64::MAX {
                        Err(ConfigFault::SizeOverflow { section: name })
                    } else {
                        Ok(
                            Some(
                                DeviceView {
                                    name,
                                    memory_limit_mb: limit,
                                    zram_fraction: f,
                                    disksize: disksize_spec(f, mem_kb),
                                },
                            ),
                        )
                    },
                },
            }
        },
    }
}

/// The devices that all sections yield, in file order, or the error of the
/// first section that fails.
pub open spec fn resolve_sections(
    path: Seq<char>,
    secs: Seq<(Option<Seq<char>>, Seq<(Seq<char>, Seq<char>)>)>,
    mem_kb: nat,
) -> Result<Seq<DeviceView>, ConfigFault>
    decreases secs.len(),
{
    if secs.len() == 0 {
        Ok(Seq::empty())
    } else {
        match resolve_sections(path, secs.drop_last(), mem_kb) {
            Err(e) => Err(e),
            Ok(ds) => match section_outcome(path, secs.last(), mem_kb) {
                Err(e) => Err(e),
                Ok(None) => Ok(ds),
                Ok(Some(d)) => Ok(ds.push(d)),
            },
        }
    }
}

/// What a section yields, with its texts as sequences of characters.
pub open spec fn outcome_view(r: Result<Option<Device>, ConfigError>) -> Result<
    Option<DeviceView>,
    ConfigFault,
> {
    match r {
        Ok(Some(d)) => Ok(Some(d@)),
        Ok(None) => Ok(None),
        Err(e) => Err(e@),
    }
}

/// Turns one section into a device: sections whose title does not start
/// with `zram` yield nothing, as do devices whose memory limit the machine
/// exceeds; the others get their size.
pub fn resolve_section(path: &str, sec: &IniSection, mem_kb: u64) -> (r: Result<Option<Device>, ConfigError>)
    ensures
        outcome_view(r) == section_outcome(path@, sec@, mem_kb as nat),
{
    let name = match &sec.name {
        None => {
            return Ok(None);
        },
        Some(n) => n,
    };
    if !starts_with(name.as_str(), "zram") {
        return Ok(None);
    }
    let mut dev = Device::new(name.clone());
    match section_get(sec, "memory-limit") {
        None => {},
        Some(v) => if same_text(v.as_str(), "none") {
            dev.memory_limit_mb = MemoryLimit::Unlimited;
        } else {
            match parse_u64(v.as_str()) {
                Ok(l) => {
                    dev.memory_limit_mb = MemoryLimit::Bounded(l);
                },
                Err(k) => {
                    return Err(
                        ConfigError::MemoryLimit { path: String::from_str(path), section: dev.name, value: v.clone(), reason: k },
                    );
                },
            }
        },
    }
    match section_get(sec, "zram-fraction") {
        None => {},
        Some(v) => match parse_fraction(v.as_str()) {
            Some(f) => {
                dev.zram_fraction = f;
            },
            None => {
                return Err(ConfigError::Fraction { path: String::from_str(path), section: dev.name, value: v.clone() });
            },
        },
    }
    if !fits_memory(dev.memory_limit_mb, mem_kb) {
        return Ok(None);
    }
    assert(all_digits(dev.zram_fraction.digits@)) by {
        let t = seq!['2', '5'];
        assert(all_digits(t)) by {
            assert forall|i: int| 0 <= i < t.len() implies is_digit(#[trigger] t[i]) by {
                if i == 0 {
                    assert(t[i] == '2');
                } else {
                    assert(t[i] == '5');
                }
            }
        }
    }
    match disksize(&dev.zram_fraction, mem_kb) {
        None => Err(ConfigError::SizeOverflow { section: dev.name }),
        Some(size) => {
            dev.disksize = size;
            Ok(Some(dev))
        },
    }
}

/// Turns the sections of the configuration, in order, into the devices to
/// set up; the first section in error ends the work.
pub fn resolve_devices(path: &str, sections: &Vec<IniSection>, mem_kb: u64) -> (r: Result<Vec<Device>, ConfigError>)
    ensures
        match r {
            Ok(v) => resolve_sections(path@, sections_view(sections@), mem_kb as nat) == Ok::<
                Seq<DeviceView>,
                ConfigFault,
            >(devices_view(v@)),
            Err(e) => resolve_sections(path@, sections_view(sections@), mem_kb as nat) == Err::<
                Seq<DeviceView>,
                ConfigFault,
            >(e@),
        },
{
    let mut out: Vec<Device> = Vec::new();
    let mut i: usize = 0;
    assert(sections_view(sections@).take(0) =~= Seq::empty());
    assert(devices_view(out@) =~= Seq::empty());
    while i < sections.len()
        invariant
            i <= sections@.len(),
            resolve_sections(path@, sections_view(sections@).take(i as int), mem_kb as nat) == Ok::<
                Seq<DeviceView>,
                ConfigFault,
            >(devices_view(out@)),
        decreases sections@.len() - i,
    {
        let ghost secs = sections_view(sections@);
        assert(secs.take(i + 1).drop_last() =~= secs.take(i as int));
        assert(secs.take(i + 1).last() == sections@[i as int]@);
        let ghost before = out@;
        let res = resolve_section(path, &sections[i], mem_kb);
        match res {
            Err(e) => {
                proof {
                    lemma_resolve_error(path@, secs, (i + 1) as int, mem_kb as nat);
                }
                return Err(e);
            },
            Ok(None) => {
                assert(resolve_sections(path@, secs.take(i + 1), mem_kb as nat) == resolve_sections(path@, secs.take(i as int), mem_kb as nat));
            },
            Ok(Some(d)) => {
                let ghost dv = d@;
                out.push(d);
                assert(devices_view(out@) =~= devices_view(before).push(dv));
            },
        }
        i = i + 1;
    }
    assert(sections_view(sections@).take(sections@.len() as int) =~= sections_view(sections@));
    Ok(out)
}

proof fn lemma_resolve_error(
    path: Seq<char>,
    secs: Seq<(Option<Seq<char>>, Seq<(Seq<char>, Seq<char>)>)>,
    k: int,
    mem_kb: nat,
)
    requires
        0 < k <= secs.len(),
        resolve_sections(path, secs.take(k), mem_kb) is Err,
    ensures
        resolve_sections(path, secs, mem_kb) == resolve_sections(path, secs.take(k), mem_kb),
    decreases secs.len() - k,
{
    if k < secs.len() {
        assert(secs.take(k + 1).drop_last() =~= secs.take(k));
        lemma_resolve_error(path, secs, k + 1, mem_kb);
    } else {
        assert(secs.take(k) =~= secs);
    }
}

/// A file name under a directory, as `Path::join` forms it for a relative name.
pub open spec fn joined(dir: Seq<char>, name: Seq<char>) -> Seq<char> {
    if dir.len() == 0 {
        name
    } else if dir.last() == '/' {
        dir + name
    } else {
        dir + seq!['/'] + name
    }
}

/// Places the relative path `name` under the directory `dir`.
pub fn join_path(dir: &str, name: &str) -> (r: String)
    ensures
        r@ == joined(dir@, name@),
{
    let n = dir.unicode_len();
    if n == 0 {
        return String::from_str(name);
    }
    let mut r = String::from_str(dir);
    if dir.get_char(n - 1) != '/' {
        proof {
            reveal_strlit("/");
        }
        r.append("/");
        assert(r@ =~= dir@ + seq!['/']);
    }
    r.append(name);
    r
}

/// The filesystem root that every path is taken under; it always ends in `/`.
pub open spec fn root_spec(var: Option<Seq<char>>) -> Seq<char> {
    match var {
        None => "/"@,
        Some(r) => if r.len() > 0 && r.last() == '/' {
            r
        } else {
            r + "/"@
        },
    }
}

/// Chooses the filesystem root: the given override with a trailing `/`, or `/`.
pub fn normalize_root(var: Option<String>) -> (r: String)
    ensures
        r@ == root_spec(match var {
            Some(v) => Some(v@),
            None => None,
        }),
{
    match var {
        None => String::from_str("/"),
        Some(v) => {
            let n = v.as_str().unicode_len();
            if n > 0 && v.as_str().get_char(n - 1) == '/' {
                v
            } else {
                let mut v = v;
                v.append("/");
                v
            }
        },
    }
}

/// `ModuleConfig` with its texts as sequences of characters.
pub enum ModuleView {
    Generator(Seq<char>),
    DeviceSetup(Seq<char>),
}

impl View for ModuleConfig {
    type V = ModuleView;

    open spec fn view(&self) -> ModuleView {
        match self {
            ModuleConfig::Generator { output_directory } => ModuleView::Generator(
                output_directory@,
            ),
            ModuleConfig::DeviceSetup { name } => ModuleView::DeviceSetup(name@),
        }
    }
}

pub open spec fn strings_view(v: Seq<String>) -> Seq<Seq<char>> {
    v.map_values(|s: String| s@)
}

/// What the positional arguments ask for: one output directory, or one
/// followed by two ignored arguments; or `--setup-device` and a device name.
pub open spec fn module_spec(args: Seq<Seq<char>>) -> Result<ModuleView, ConfigFault> {
    if args.len() == 0 {
        Err(ConfigFault::Arguments)
    } else if args[0] == "--setup-device"@ {
        if args.len() >= 2 && is_device_title(args[1]) {
            Ok(ModuleView::DeviceSetup(args[1]))
        } else {
            Err(ConfigFault::SetupDeviceName)
        }
    } else if args.len() == 1 || args.len() == 3 {
        Ok(ModuleView::Generator(args[0]))
    } else {
        Err(ConfigFault::Arguments)
    }
}

/// Reads the positional arguments, the program name left out.
pub fn parse_module(args: &Vec<String>) -> (r: Result<ModuleConfig, ConfigError>)
    ensures
        match r {
            Ok(m) => module_spec(strings_view(args@)) == Ok::<ModuleView, ConfigFault>(m@),
            Err(e) => module_spec(strings_view(args@)) == Err::<ModuleView, ConfigFault>(e@),
        },
{
    let ghost a = strings_view(args@);
    if args.len() == 0 {
        return Err(ConfigError::Arguments);
    }
    assert(a[0] == args@[0]@);
    if same_text(args[0].as_str(), "--setup-device") {
        if args.len() >= 2 && starts_with(args[1].as_str(), "zram") {
            assert(a[1] == args@[1]@);
            return Ok(ModuleConfig::DeviceSetup { name: args[1].clone() });
        }
        return Err(ConfigError::SetupDeviceName);
    }
    if args.len() == 1 || args.len() == 3 {
        Ok(ModuleConfig::Generator { output_directory: args[0].clone() })
    } else {
        Err(ConfigError::Arguments)
    }
}

pub open spec fn config_file(root: Seq<char>) -> Seq<char> {
    joined(root, "etc/systemd/zram-generator.conf"@)
}

pub open spec fn meminfo_file(root: Seq<char>) -> Seq<char> {
    joined(root, "proc/meminfo"@)
}

/// A text without its leading byte-order mark, if it has one.
pub open spec fn without_bom(t: Seq<char>) -> Seq<char> {
    if t.len() > 0 && t[0] == '\u{feff}' {
        t.drop_first()
    } else {
        t
    }
}

/// The devices that a configuration text yields on the machine that the
/// meminfo text describes (`None`: it could not be read).
pub open spec fn read_devices_spec(
    root: Seq<char>,
    text: Seq<char>,
    meminfo: Option<Seq<char>>,
) -> Result<Seq<DeviceView>, ConfigFault> {
    match meminfo {
        None => Err(ConfigFault::MemInfoUnreadable { path: meminfo_file(root) }),
        Some(m) => match mem_total_spec(m) {
            Err(k) => Err(ConfigFault::MemInfo { path: meminfo_file(root), problem: k }),
            Ok(kb) => match ini_document(without_bom(text)) {
                None => Err(ConfigFault::Syntax { path: config_file(root) }),
                Some(secs) => resolve_sections(config_file(root), secs, kb as nat),
            },
        },
    }
}

/// The resolved setup of one run.
pub struct Config {
    pub root: String,
    pub devices: Vec<Device>,
    pub module: ModuleConfig,
}

impl Config {
    /// Reads the devices from the text of the configuration file, once the
    /// total memory has been read from the meminfo text. A leading
    /// byte-order mark is not part of the configuration.
    pub fn read_devices(root: &str, config_text: &str, meminfo: Option<String>) -> (r: Result<
        Vec<Device>,
        ConfigError,
    >)
        ensures
            match r {
                Ok(v) => read_devices_spec(root@, config_text@, match meminfo {
                    Some(m) => Some(m@),
                    None => None,
                }) == Ok::<Seq<DeviceView>, ConfigFault>(devices_view(v@)),
                Err(e) => read_devices_spec(root@, config_text@, match meminfo {
                    Some(m) => Some(m@),
                    None => None,
                }) == Err::<Seq<DeviceView>, ConfigFault>(e@),
            },
    {
        let text = match meminfo {
            None => {
                return Err(ConfigError::MemInfoUnreadable { path: join_path(root, "proc/meminfo") });
            },
            Some(t) => t,
        };
        let mem_kb = match parse_mem_total(text.as_str()) {
            Ok(kb) => kb,
            Err(k) => {
                return Err(ConfigError::MemInfo { path: join_path(root, "proc/meminfo"), problem: k });
            },
        };
        let n = config_text.unicode_len();
        let body = if n > 0 && config_text.get_char(0) == '\u{feff}' {
            config_text.substring_char(1, n)
        } else {
            config_text
        };
        assert(body@ =~= without_bom(config_text@));
        let sections = match load_ini(body) {
            Ok(s) => s,
            Err(error) => {
                return Err(
                    ConfigError::Syntax {
                        path: join_path(root, "etc/systemd/zram-generator.conf"),
                        error,
                    },
                );
            },
        };
        let path = join_path(root, "etc/systemd/zram-generator.conf");
        resolve_devices(path.as_str(), &sections, mem_kb)
    }
}

impl View for Config {
    type V = (Seq<char>, Seq<DeviceView>, ModuleView);

    open spec fn view(&self) -> Self::V {
        (self.root@, devices_view(self.devices@), self.module@)
    }
}

pub open spec fn opt_view(o: Option<String>) -> Option<Seq<char>> {
    match o {
        Some(s) => Some(s@),
        None => None,
    }
}

/// The setup of a run: the root, the arguments, and the texts of the
/// configuration file (`None`: there is none) and of the meminfo file
/// (`None`: it could not be read). The meminfo text matters only when there
/// is a configuration.
pub open spec fn parse_spec(
    root_var: Option<Seq<char>>,
    args: Seq<Seq<char>>,
    config_text: Option<Seq<char>>,
    meminfo: Option<Seq<char>>,
) -> Result<(Seq<char>, Seq<DeviceView>, ModuleView), ConfigFault> {
    match module_spec(args) {
        Err(e) => Err(e),
        Ok(m) => match config_text {
            None => Ok((root_spec(root_var), Seq::empty(), m)),
            Some(t) => match read_devices_spec(root_spec(root_var), t, meminfo) {
                Err(e) => Err(e),
                Ok(ds) => Ok((root_spec(root_var), ds, m)),
            },
        },
    }
}

impl Config {
    /// Resolves the setup of a run from the root override, the positional
    /// arguments and the texts read from the configuration and meminfo files.
    pub fn parse(
        root_var: Option<String>,
        args: &Vec<String>,
        config_text: Option<String>,
        meminfo: Option<String>,
    ) -> (r: Result<Config, ConfigError>)
        ensures
            match r {
                Ok(c) => parse_spec(
                    opt_view(root_var),
                    strings_view(args@),
                    opt_view(config_text),
                    opt_view(meminfo),
                ) == Ok::<(Seq<char>, Seq<DeviceView>, ModuleView), ConfigFault>(c@),
                Err(e) => parse_spec(
                    opt_view(root_var),
                    strings_view(args@),
                    opt_view(config_text),
                    opt_view(meminfo),
                ) == Err::<(Seq<char>, Seq<DeviceView>, ModuleView), ConfigFault>(e@),
            },
    {
        let root = normalize_root(root_var);
        let module = match parse_module(args) {
            Ok(m) => m,
            Err(e) => {
                return Err(e);
            },
        };
        let devices = match config_text {
            None => {
                let v: Vec<Device> = Vec::new();
                assert(devices_view(v@) =~= Seq::empty());
                v
            },
            Some(t) => match Config::read_devices(root.as_str(), t.as_str(), meminfo) {
                Ok(v) => v,
                Err(e) => {
                    return Err(e);
                },
            },
        };
        Ok(Config { root, devices, module })
    }

    /// The actions of the run: the generator's plan, or, for the setup of
    /// a single device, which is not provided, an error.
    pub fn run(self, in_container: bool) -> (r: Result<Vec<Action>, ConfigError>)
        ensures
            match self.module {
                ModuleConfig::Generator { output_directory } => r matches Ok(v) && actions_view(v@)
                    == generator_plan(
                    self.root@,
                    output_directory@,
                    devices_view(self.devices@),
                    in_container,
                ),
                ModuleConfig::DeviceSetup { name } => r matches Err(e) && e@
                    == ConfigFault::SetupUnimplemented { name: name@ },
            },
    {
        match self.module {
            ModuleConfig::Generator { output_directory } => Ok(
                run_generator(
                    self.root.as_str(),
                    &self.devices,
                    output_directory.as_str(),
                    in_container,
                ),
            ),
            ModuleConfig::DeviceSetup { name } => Err(ConfigError::SetupUnimplemented { name }),
        }
    }
}

/// A section that yields no device leaves the resolved device list as it
/// would be without that section.
pub proof fn lemma_skipped_section(
    path: Seq<char>,
    before: Seq<(Option<Seq<char>>, Seq<(Seq<char>, Seq<char>)>)>,
    sec: (Option<Seq<char>>, Seq<(Seq<char>, Seq<char>)>),
    after: Seq<(Option<Seq<char>>, Seq<(Seq<char>, Seq<char>)>)>,
    mem_kb: nat,
)
    requires
        section_outcome(path, sec, mem_kb) == Ok::<Option<DeviceView>, ConfigFault>(None),
    ensures
        resolve_sections(path, before.push(sec) + after, mem_kb) == resolve_sections(path, before + after, mem_kb),
    decreases after.len(),
{
    if after.len() == 0 {
        assert(before.push(sec) + after =~= before.push(sec));
        assert(before + after =~= before);
        assert(before.push(sec).drop_last() =~= before);
    } else {
        lemma_skipped_section(path, before, sec, after.drop_last(), mem_kb);
        assert((before.push(sec) + after).drop_last() =~= before.push(sec) + after.drop_last());
        assert((before + after).drop_last() =~= before + after.drop_last());
    }
}

/// A device that is kept gets `floor(ratio × total megabytes)` megabytes,
/// the whole megabytes taken before they are scaled to bytes.
pub proof fn lemma_included_disksize(
    path: Seq<char>,
    sec: (Option<Seq<char>>, Seq<(Seq<char>, Seq<char>)>),
    mem_kb: nat,
)
    requires
        sec.0 matches Some(name) && is_device_title(name),
        section_limit(path, sec.0->Some_0, sec.1) is Ok,
        section_fraction(path, sec.0->Some_0, sec.1) is Ok,
        within_limit(section_limit(path, sec.0->Some_0, sec.1)->Ok_0, mem_kb),
        disksize_spec(section_fraction(path, sec.0->Some_0, sec.1)->Ok_0, mem_kb) <= u64::MAX,
    ensures
        section_outcome(path, sec, mem_kb) matches Ok(Some(d)) && d.disksize == size_mb(
            d.zram_fraction,
            mem_kb,
        ) * 1024 * 1024 && d.zram_fraction == section_fraction(path, sec.0->Some_0, sec.1)->Ok_0,
{
}

/// A device whose limit the machine's memory exceeds adds no device, and so
/// nothing to what is generated.
pub proof fn lemma_excluded_device(
    path: Seq<char>,
    before: Seq<(Option<Seq<char>>, Seq<(Seq<char>, Seq<char>)>)>,
    sec: (Option<Seq<char>>, Seq<(Seq<char>, Seq<char>)>),
    after: Seq<(Option<Seq<char>>, Seq<(Seq<char>, Seq<char>)>)>,
    limit_mb: u64,
    mem_kb: nat,
)
    requires
        sec.0 matches Some(name) && is_device_title(name),
        section_limit(path, sec.0->Some_0, sec.1) == Ok::<MemoryLimit, ConfigFault>(
            MemoryLimit::Bounded(limit_mb),
        ),
        section_fraction(path, sec.0->Some_0, sec.1) is Ok,
        mem_kb > limit_mb * 1024,
    ensures
        section_outcome(path, sec, mem_kb) == Ok::<Option<DeviceView>, ConfigFault>(None),
        resolve_sections(path, before.push(sec) + after, mem_kb) == resolve_sections(path, before + after, mem_kb),
{
    lemma_skipped_section(path, before, sec, after, mem_kb);
}

/// A section whose title does not start with `zram` never yields a device,
/// whatever its properties.
pub proof fn lemma_foreign_section(
    path: Seq<char>,
    before: Seq<(Option<Seq<char>>, Seq<(Seq<char>, Seq<char>)>)>,
    sec: (Option<Seq<char>>, Seq<(Seq<char>, Seq<char>)>),
    after: Seq<(Option<Seq<char>>, Seq<(Seq<char>, Seq<char>)>)>,
    mem_kb: nat,
)
    requires
        !(sec.0 matches Some(name) && is_device_title(name)),
    ensures
        section_outcome(path, sec, mem_kb) == Ok::<Option<DeviceView>, ConfigFault>(None),
        resolve_sections(path, before.push(sec) + after, mem_kb) == resolve_sections(path, before + after, mem_kb),
{
    lemma_skipped_section(path, before, sec, after, mem_kb);
}

/// `memory-limit = none` admits a device on a machine with any amount of
/// memory (its size must fit in 64 bits, else the section is in error).
pub proof fn lemma_unlimited_device(
    path: Seq<char>,
    sec: (Option<Seq<char>>, Seq<(Seq<char>, Seq<char>)>),
    mem_kb: nat,
)
    requires
        sec.0 matches Some(name) && is_device_title(name),
        first_value(sec.1, "memory-limit"@) == Some("none"@),
        section_fraction(path, sec.0->Some_0, sec.1) is Ok,
        disksize_spec(section_fraction(path, sec.0->Some_0, sec.1)->Ok_0, mem_kb) <= u64::MAX,
    ensures
        section_outcome(path, sec, mem_kb) matches Ok(Some(d)) && d.memory_limit_mb
            == MemoryLimit::Unlimited,
{
}

/// Without a configuration file a run succeeds whenever its arguments are
/// valid, sets up no device and writes nothing.
pub proof fn lemma_no_configuration(
    root_var: Option<Seq<char>>,
    args: Seq<Seq<char>>,
    meminfo: Option<Seq<char>>,
    out: Seq<char>,
    in_container: bool,
)
    ensures
        parse_spec(root_var, args, None, meminfo) is Ok <==> module_spec(args) is Ok,
        parse_spec(root_var, args, None, meminfo) matches Ok(c) ==> c.1.len() == 0
            && generator_plan(c.0, out, c.1, in_container) == Seq::<ActionView>::empty(),
{
}

} // verus!
