//! MicroVMs for code that is not trusted.
use vstd::prelude::*;

use crate::isolation::error::{IsolationError, IsolationErrorV};
use crate::json::Json;
use crate::outside::random_id;
use crate::text::concat;

verus! {

/// How microVMs are started on a host.
#[derive(Debug)]
pub struct FirecrackerConfig {
    pub binary_path: String,
    pub kernel_image: String,
    pub rootfs_image: String,
    pub vcpu_count: u8,
    pub mem_size_mib: u32,
    pub chroot_dir: String,
    pub warm_pool_size: usize,
}

impl Default for FirecrackerConfig {
    fn default() -> (r: FirecrackerConfig)
        ensures
            r.binary_path@ == "/usr/local/bin/firecracker"@,
            r.kernel_image@ == "/opt/axocoatl/vmlinux.bin"@,
            r.rootfs_image@ == "/opt/axocoatl/rootfs.ext4"@,
            r.vcpu_count == 1,
            r.mem_size_mib == 128,
            r.chroot_dir@ == "/srv/axocoatl"@,
            r.warm_pool_size == 5,
    {
        FirecrackerConfig {
            binary_path: "/usr/local/bin/firecracker".to_owned(),
            kernel_image: "/opt/axocoatl/vmlinux.bin".to_owned(),
            rootfs_image: "/opt/axocoatl/rootfs.ext4".to_owned(),
            vcpu_count: 1,
            mem_size_mib: 128,
            chroot_dir: "/srv/axocoatl".to_owned(),
            warm_pool_size: 5,
        }
    }
}

/// The configuration of one microVM.
#[verifier::external_type_specification]
#[verifier::external_body]
pub struct ExConfiguration(firepilot::builder::Configuration);

/// The configuration that is made of a VM's id, its kernel with boot arguments,
/// its one drive, which is the root device or is not, and the directory and program
/// of the executor.
pub uninterp spec fn configuration_of(
    vm_id: Seq<char>,
    kernel_image: Seq<char>,
    boot_args: Seq<char>,
    drive_id: Seq<char>,
    drive_image: Seq<char>,
    root_device: bool,
    chroot: Seq<char>,
    binary: Seq<char>,
) -> firepilot::builder::Configuration;

/// `firepilot::builder::Configuration` with a kernel, an executor and a writable
/// drive. It holds the given values and nothing else. The parts' `try_build` fails
/// only where a required value was not given, and all of them are.
#[verifier::external_body]
fn configure(
    vm_id: &str,
    kernel_image: &str,
    boot_args: &str,
    drive_id: &str,
    drive_image: &str,
    root_device: bool,
    chroot: &str,
    binary: &str,
) -> (r: firepilot::builder::Configuration)
    ensures
        r == configuration_of(
            vm_id@,
            kernel_image@,
            boot_args@,
            drive_id@,
            drive_image@,
            root_device,
            chroot@,
            binary@,
        ),
{
    let kernel = firepilot::builder::kernel::KernelBuilder::new()
        .with_kernel_image_path(kernel_image.to_string())
        .with_boot_args(boot_args.to_string());
    let mut drive = firepilot::builder::drive::DriveBuilder::new()
        .with_drive_id(drive_id.to_string())
        .with_path_on_host(std::path::PathBuf::from(drive_image));
    drive.is_root_device = root_device;
    let executor = firepilot::builder::executor::FirecrackerExecutorBuilder::new()
        .with_chroot(chroot.to_string())
        .with_exec_binary(std::path::PathBuf::from(binary));
    firepilot::builder::Configuration::new(vm_id.to_string())
        .with_kernel(firepilot::builder::Builder::try_build(kernel).expect("the kernel is complete"))
        .with_executor(firepilot::builder::Builder::try_build(executor).expect("the executor is complete"))
        .with_drive(firepilot::builder::Builder::try_build(drive).expect("the drive is complete"))
}

/// Where microVMs are taken from.
#[derive(Debug)]
pub struct FirecrackerPool {
    pub config: FirecrackerConfig,
}

impl FirecrackerPool {
    /// A pool for a host.
    pub fn new(config: FirecrackerConfig) -> (r: FirecrackerPool)
        ensures
            r.config == config,
    {
        FirecrackerPool { config }
    }

    /// The configuration of a VM with the given id, whose root device is the
    /// pool's image.
    pub open spec fn boots(&self, vm_id: Seq<char>) -> firepilot::builder::Configuration {
        configuration_of(
            vm_id,
            self.config.kernel_image@,
            "reboot=k panic=1 pci=off"@,
            "rootfs"@,
            self.config.rootfs_image@,
            true,
            self.config.chroot_dir@,
            self.config.binary_path@,
        )
    }

    /// What is to be booted under the given id.
    pub fn acquire_as(&self, vm_id: &str) -> (r: firepilot::builder::Configuration)
        ensures
            r == self.boots(vm_id@),
    {
        configure(
            vm_id,
            self.config.kernel_image.as_str(),
            "reboot=k panic=1 pci=off",
            "rootfs",
            self.config.rootfs_image.as_str(),
            true,
            self.config.chroot_dir.as_str(),
            self.config.binary_path.as_str(),
        )
    }

    /// What is to be booted, and the handle that it gets, under a new id.
    pub fn acquire(&self) -> (r: (firepilot::builder::Configuration, VmHandle))
        ensures
            r.0 == self.boots(r.1.vm_id@),
            r.1.vm_id@.len() == 36,
    {
        let vm_id = random_id();
        (self.acquire_as(vm_id.as_str()), VmHandle { vm_id })
    }

    /// The error where booting or stopping failed.
    pub fn failure(message: String) -> (r: IsolationError)
        ensures
            r@ == IsolationErrorV::VmStartFailed(message@),
    {
        IsolationError::VmStartFailed(message)
    }
}

/// A running VM.
#[derive(Debug)]
pub struct VmHandle {
    pub vm_id: String,
}

impl VmHandle {
    /// No tool can be run inside a VM yet.
    pub fn execute_tool(&self, tool_name: &str, args: Json, timeout_secs: u64) -> (r: Result<Json, IsolationError>)
        ensures
            r matches Err(e) && e@ == IsolationErrorV::ExecutionFailed(
                "Firecracker in-VM execution is an experimental tier; tool '"@ + tool_name@ + "' cannot run on it"@,
            ),
    {
        let head = concat("Firecracker in-VM execution is an experimental tier; tool '", tool_name);
        Err(IsolationError::ExecutionFailed(concat(head.as_str(), "' cannot run on it")))
    }

    /// The id of the VM.
    pub fn vm_id(&self) -> (r: &str)
        ensures
            r@ == self.vm_id@,
    {
        self.vm_id.as_str()
    }
}

} // verus!
