//! The devices a machine configuration describes, and building a machine from it.
use vstd::prelude::*;
use crate::bytes::push_all;
use crate::config::{DeviceConfig, VmConfig};

use crate::initializer::{boot_outcome, initialize};
use crate::memory::{Bus, Ram, ram_id, prefix_size};
use crate::ports::{PortDevice, PortKind, default_port_id};
use crate::vm::VM;
use crate::vm_types::{RegisterFile, VmResult};

verus! {

/// The devices of a configuration: RAM devices (each with whether the machine must fail
/// when it does not fit the physical space) and port devices with their ports.
pub struct InitializedDevices {
    pub memory_mapped: Vec<(Ram, bool)>,
    pub port_mapped: Vec<(u32, PortDevice)>,
}

/// `size` rounded up to a whole number of 4 KiB pages.
pub open spec fn page_rounded(size: u32) -> int {
    (size + 4095) / 4096 * 4096
}

/// The identifier given, or `d`.
pub open spec fn id_or(id: Option<[u8; 8]>, d: [u8; 8]) -> [u8; 8] {
    match id {
        Some(x) => x,
        None => d,
    }
}

/// Size and identifier of every RAM device a list of device settings describes, in order.
pub open spec fn extra_rams(devs: Seq<DeviceConfig>) -> Seq<(int, [u8; 8])>
    decreases devs.len(),
{
    if devs.len() == 0 {
        seq![]
    } else {
        let rest = extra_rams(devs.drop_last());
        match devs.last() {
            DeviceConfig::Ram { size, general } => rest.push((size as int, id_or(general.id, ram_id()))),
            _ => rest,
        }
    }
}

/// Port, kind and identifier of every port device a list of device settings describes, in
/// order.
pub open spec fn port_configs(devs: Seq<DeviceConfig>) -> Seq<(u32, PortKind, [u8; 8])>
    decreases devs.len(),
{
    if devs.len() == 0 {
        seq![]
    } else {
        let rest = port_configs(devs.drop_last());
        match devs.last() {
            DeviceConfig::Ram { .. } => rest,
            DeviceConfig::DecimalIo { port, general, .. } => rest.push(
                (port, PortKind::Decimal, id_or(general.id, default_port_id(PortKind::Decimal))),
            ),
            DeviceConfig::HexIo { port, general, .. } => rest.push(
                (port, PortKind::Hex, id_or(general.id, default_port_id(PortKind::Hex))),
            ),
            DeviceConfig::RawIo { port, general, .. } => rest.push(
                (port, PortKind::Raw, id_or(general.id, default_port_id(PortKind::Raw))),
            ),
        }
    }
}

/// Size and identifier of every RAM device of a configuration: the main RAM, its size
/// rounded up to pages, then the extra RAMs.
pub open spec fn ram_list(config: VmConfig) -> Seq<(int, [u8; 8])> {
    seq![(page_rounded(config.mem_size), ram_id())] + extra_rams(config.devices@)
}

/// What the `j`-th port device reads: the `j`-th input, or nothing.
pub open spec fn input_for(inputs: Seq<Vec<u8>>, j: int) -> Seq<u8> {
    if 0 <= j < inputs.len() {
        inputs[j]@
    } else {
        seq![]
    }
}

/// Total size of the RAM devices of a configuration.
pub open spec fn ram_total(rams: Seq<(int, [u8; 8])>, i: int) -> int
    decreases i,
{
    if i <= 0 {
        0
    } else {
        ram_total(rams, i - 1) + rams[i - 1].0
    }
}

/// Device `d` is a zeroed RAM of `size` bytes named `id`.
pub open spec fn fresh_ram(d: Ram, size: int, id: [u8; 8]) -> bool {
    &&& d.wf()
    &&& d.data@.len() == size
    &&& d.id == id
    &&& forall|k: int| 0 <= k < size ==> #[trigger] d.data@[k] == 0
}

/// Device `d` on port `port` is an unread port device of `kind` named `id` reading `input`.
pub open spec fn fresh_port(e: (u32, PortDevice), c: (u32, PortKind, [u8; 8]), input: Seq<u8>) -> bool {
    &&& e.0 == c.0
    &&& e.1.kind == c.1
    &&& e.1.id == c.2
    &&& e.1.input@ == input
    &&& e.1.cursor == 0
    &&& e.1.output@.len() == 0
    &&& e.1.wf()
}

proof fn lemma_ram_list_push(config: VmConfig, k: int)
    requires
        0 <= k < config.devices@.len(),
    ensures
        extra_rams(config.devices@.subrange(0, k + 1)) == match config.devices@[k] {
            DeviceConfig::Ram { size, general } => extra_rams(config.devices@.subrange(0, k)).push(
                (size as int, id_or(general.id, ram_id())),
            ),
            _ => extra_rams(config.devices@.subrange(0, k)),
        },
        port_configs(config.devices@.subrange(0, k + 1)) == match config.devices@[k] {
            DeviceConfig::Ram { .. } => port_configs(config.devices@.subrange(0, k)),
            DeviceConfig::DecimalIo { port, general, .. } => port_configs(config.devices@.subrange(0, k)).push(
                (port, PortKind::Decimal, id_or(general.id, default_port_id(PortKind::Decimal))),
            ),
            DeviceConfig::HexIo { port, general, .. } => port_configs(config.devices@.subrange(0, k)).push(
                (port, PortKind::Hex, id_or(general.id, default_port_id(PortKind::Hex))),
            ),
            DeviceConfig::RawIo { port, general, .. } => port_configs(config.devices@.subrange(0, k)).push(
                (port, PortKind::Raw, id_or(general.id, default_port_id(PortKind::Raw))),
            ),
        },
{
    assert(config.devices@.subrange(0, k + 1).drop_last() =~= config.devices@.subrange(0, k));
}

fn copy_input(inputs: &Vec<Vec<u8>>, j: usize) -> (r: Vec<u8>)
    ensures
        r@ == input_for(inputs@, j as int),
{
    let mut out: Vec<u8> = Vec::new();
    if j < inputs.len() {
        push_all(&mut out, inputs[j].as_slice());
        assert(out@ =~= inputs@[j as int]@);
    }
    out
}

/// The devices a configuration describes: the main RAM (its size rounded up to whole
/// pages), then each extra RAM and each port device in the order listed; the `j`-th port
/// device reads the `j`-th of `inputs` (nothing when there are fewer inputs). Every RAM must
/// fit the physical space.
pub fn initialize_devices(config: &VmConfig, inputs: &Vec<Vec<u8>>) -> (r: InitializedDevices)
    requires
        config.mem_size <= 0xFFFF_F000,
    ensures
        r.memory_mapped@.len() == ram_list(*config).len(),
        forall|i: int|
            0 <= i < r.memory_mapped@.len() ==> (#[trigger] r.memory_mapped@[i]).1 && fresh_ram(
                r.memory_mapped@[i].0,
                ram_list(*config)[i].0,
                ram_list(*config)[i].1,
            ),
        r.port_mapped@.len() == port_configs(config.devices@).len(),
        forall|j: int|
            0 <= j < r.port_mapped@.len() ==> fresh_port(
                #[trigger] r.port_mapped@[j],
                port_configs(config.devices@)[j],
                input_for(inputs@, j),
            ),
{
    let mut memory_mapped: Vec<(Ram, bool)> = Vec::new();
    let mut port_mapped: Vec<(u32, PortDevice)> = Vec::new();
    let rounded = (config.mem_size + 4095) / 4096 * 4096;
    memory_mapped.push((Ram::new(rounded, None), true));
    let mut k: usize = 0;
    while k < config.devices.len()
        invariant
            0 <= k <= config.devices@.len(),
            memory_mapped@.len() == 1 + extra_rams(config.devices@.subrange(0, k as int)).len(),
            forall|i: int|
                0 <= i < memory_mapped@.len() ==> (#[trigger] memory_mapped@[i]).1 && fresh_ram(
                    memory_mapped@[i].0,
                    (seq![(page_rounded(config.mem_size), ram_id())] + extra_rams(config.devices@.subrange(0, k as int)))[i].0,
                    (seq![(page_rounded(config.mem_size), ram_id())] + extra_rams(config.devices@.subrange(0, k as int)))[i].1,
                ),
            port_mapped@.len() == port_configs(config.devices@.subrange(0, k as int)).len(),
            forall|j: int|
                0 <= j < port_mapped@.len() ==> fresh_port(
                    #[trigger] port_mapped@[j],
                    port_configs(config.devices@.subrange(0, k as int))[j],
                    input_for(inputs@, j),
                ),
        decreases config.devices@.len() - k,
    {
        proof {
            lemma_ram_list_push(*config, k as int);
        }
        let ghost rams_before = seq![(page_rounded(config.mem_size), ram_id())] + extra_rams(config.devices@.subrange(0, k as int));
        let ghost ports_before = port_configs(config.devices@.subrange(0, k as int));
        match &config.devices[k] {
            DeviceConfig::Ram { size, general } => {
                memory_mapped.push((Ram::new(*size, general.id), true));
                proof {
                    let rams_after = seq![(page_rounded(config.mem_size), ram_id())] + extra_rams(config.devices@.subrange(0, k as int + 1));
                    assert(rams_after =~= rams_before.push((*size as int, id_or(general.id, ram_id()))));
                }
            },
            DeviceConfig::DecimalIo { port, general, .. } => {
                let input = copy_input(inputs, port_mapped.len());
                port_mapped.push((*port, PortDevice::new(PortKind::Decimal, general.id, input)));
                assert(port_configs(config.devices@.subrange(0, k as int + 1)) =~= ports_before.push(
                    (*port, PortKind::Decimal, id_or(general.id, default_port_id(PortKind::Decimal))),
                ));
            },
            DeviceConfig::HexIo { port, general, .. } => {
                let input = copy_input(inputs, port_mapped.len());
                port_mapped.push((*port, PortDevice::new(PortKind::Hex, general.id, input)));
                assert(port_configs(config.devices@.subrange(0, k as int + 1)) =~= ports_before.push(
                    (*port, PortKind::Hex, id_or(general.id, default_port_id(PortKind::Hex))),
                ));
            },
            DeviceConfig::RawIo { port, general, .. } => {
                let input = copy_input(inputs, port_mapped.len());
                port_mapped.push((*port, PortDevice::new(PortKind::Raw, general.id, input)));
                assert(port_configs(config.devices@.subrange(0, k as int + 1)) =~= ports_before.push(
                    (*port, PortKind::Raw, id_or(general.id, default_port_id(PortKind::Raw))),
                ));
            },
        }
        k = k + 1;
    }
    assert(config.devices@.subrange(0, config.devices@.len() as int) =~= config.devices@);
    InitializedDevices { memory_mapped, port_mapped }
}

proof fn lemma_device_counts(devs: Seq<DeviceConfig>)
    ensures
        extra_rams(devs).len() + port_configs(devs).len() == devs.len(),
    decreases devs.len(),
{
    if devs.len() > 0 {
        lemma_device_counts(devs.drop_last());
    }
}

proof fn lemma_prefix_is_total(d: Seq<(Ram, bool)>, rams: Seq<(int, [u8; 8])>, i: int)
    requires
        0 <= i <= d.len(),
        d.len() == rams.len(),
        forall|j: int| 0 <= j < d.len() ==> (#[trigger] d[j]).0.data@.len() == rams[j].0,
    ensures
        prefix_size(d, i) == ram_total(rams, i),
    decreases i,
{
    if i > 0 {
        lemma_prefix_is_total(d, rams, i - 1);
    }
}

/// A register file with everything zero.
pub open spec fn zero_file(f: RegisterFile) -> bool {
    &&& forall|i: int| 0 <= i < 16 ==> f.regs@[i] == 0
    &&& f.ip == 0 && f.sp == 0 && f.flags.0 == 0 && f.cr == 0
}

/// Machine `vm` is the one a configuration describes before booting: zeroed register
/// files (the kernel's active), no interrupt handlers, no page mapped, the RAM devices
/// zeroed and laid out one after another from physical address 0, the port devices unread.
pub open spec fn fresh_machine(vm: VM, config: VmConfig, inputs: Seq<Vec<u8>>) -> bool {
    let rams = ram_list(config);
    let ports = port_configs(config.devices@);
    &&& zero_file(vm.files[0]) && zero_file(vm.files[1])
    &&& vm.active == 0 && vm.cr == 0 && vm.pending_interrupt is None && !vm.halted
    &&& forall|i: int| 0 <= i < 256 ==> vm.ivt@[i] == 0
    &&& vm.bus.pages@.len() == 0
    &&& vm.bus.current_context == 0
    &&& vm.bus.physical@.len() == rams.len()
    &&& forall|i: int|
        0 <= i < rams.len() ==> (#[trigger] vm.bus.physical@[i]).phys_base == ram_total(rams, i) && fresh_ram(
            vm.bus.physical@[i].ram,
            rams[i].0,
            rams[i].1,
        )
    &&& vm.ports@.len() == ports.len()
    &&& forall|j: int| 0 <= j < ports.len() ==> fresh_port(#[trigger] vm.ports@[j], ports[j], input_for(inputs, j))
}

impl VM {
    /// Builds the machine a configuration describes and boots it from an object file; the
    /// `j`-th port device reads the `j`-th of `inputs`. Fails with a layout error when the
    /// RAM devices do not fit the 32-bit physical space, and otherwise as booting the fresh
    /// machine does (see `boot_outcome`).
    pub fn with_inputs(config: VmConfig, rom: &[u8], inputs: &Vec<Vec<u8>>) -> (r: VmResult<VM>)
        requires
            config.mem_size <= 0xFFFF_F000,
            36 * config.devices@.len() + 8292 <= u32::MAX,
        ensures
            ram_total(ram_list(config), ram_list(config).len() as int) > u32::MAX ==> (r matches Err(e) && e is Layout),
            ram_total(ram_list(config), ram_list(config).len() as int) <= u32::MAX ==> exists|pre: VM|
                #[trigger] fresh_machine(pre, config, inputs@) && match r {
                    Ok(vm) => vm.wf() && boot_outcome(pre, vm, rom@, Ok(())),
                    Err(e) => boot_outcome(pre, pre, rom@, Err(e)),
                },
    {
        let devices = initialize_devices(&config, inputs);
        let InitializedDevices { memory_mapped, port_mapped } = devices;
        let ghost rams = ram_list(config);
        proof {
            lemma_prefix_is_total(memory_mapped@, rams, rams.len() as int);
            lemma_device_counts(config.devices@);
        }
        let bus = Bus::new(memory_mapped)?;
        let vm0 = VM {
            files: [RegisterFile::new(), RegisterFile::new()],
            active: 0,
            cr: 0,
            ivt: [0u32; 256],
            pending_interrupt: None,
            bus,
            ports: port_mapped,
            halted: false,
        };
        let mut vm = vm0;
        let ghost pre = vm;
        proof {
            assert forall|i: int| 0 <= i < rams.len() implies (#[trigger] pre.bus.physical@[i]).phys_base == ram_total(rams, i) by {
                lemma_prefix_is_total(memory_mapped@, rams, i);
            }
            assert(fresh_machine(pre, config, inputs@));
        }
        let res = initialize(&mut vm, rom);
        match res {
            Ok(()) => Ok(vm),
            Err(e) => Err(e),
        }
    }

    /// Builds and boots the machine a configuration describes; its port devices read
    /// nothing (see `with_inputs`).
    pub fn new(config: VmConfig, rom: &[u8]) -> (r: VmResult<VM>)
        requires
            config.mem_size <= 0xFFFF_F000,
            36 * config.devices@.len() + 8292 <= u32::MAX,
        ensures
            ram_total(ram_list(config), ram_list(config).len() as int) > u32::MAX ==> (r matches Err(e) && e is Layout),
            ram_total(ram_list(config), ram_list(config).len() as int) <= u32::MAX ==> exists|pre: VM|
                #[trigger] fresh_machine(pre, config, seq![]) && match r {
                    Ok(vm) => vm.wf() && boot_outcome(pre, vm, rom@, Ok(())),
                    Err(e) => boot_outcome(pre, pre, rom@, Err(e)),
                },
    {
        let none: Vec<Vec<u8>> = Vec::new();
        let r = VM::with_inputs(config, rom, &none);
        assert(none@ =~= seq![]);
        r
    }
}

} // verus!
