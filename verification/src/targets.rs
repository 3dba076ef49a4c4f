//! Descriptions of the CHERI capability targets.
//!
//! Only the options that these targets set, plus the operating system that
//! their platform bases pick, are modelled; the descriptions are consumed as
//! opaque configuration by the code generator.

use vstd::prelude::*;

pub mod freebsd_base;
pub mod linux_musl_base;
pub mod morello_unknown_freebsd_purecap;
pub mod morello_unknown_linux_purecap;
pub mod morello_unknown_none_purecap;
pub mod riscv32imcxcheri_unknown_none_purecap;

verus! {

/// Whether the linker is driven through a C compiler.
#[derive(Copy, Clone, Debug, PartialEq, Eq, Structural)]
pub enum Cc {
    Yes,
    No,
}

/// Whether the linker is LLD.
#[derive(Copy, Clone, Debug, PartialEq, Eq, Structural)]
pub enum Lld {
    Yes,
    No,
}

/// The flavor of linker invocation a target uses.
#[derive(Copy, Clone, Debug, PartialEq, Eq, Structural)]
pub enum LinkerFlavor {
    Gnu(Cc, Lld),
}

/// What a panic does on the target.
#[derive(Copy, Clone, Debug, PartialEq, Eq, Structural)]
pub enum PanicStrategy {
    Unwind,
    Abort,
}

/// The relocation model code is generated for.
#[derive(Copy, Clone, Debug, PartialEq, Eq, Structural)]
pub enum RelocModel {
    Pic,
    Static,
}

/// Extra arguments passed to one flavor of linker invocation before the
/// object files.
pub struct PreLinkArgs {
    pub flavor: LinkerFlavor,
    pub args: Vec<&'static str>,
}

/// The target options this material sets, with the operating system its
/// platform base picks.
pub struct TargetOptions {
    pub os: &'static str,
    pub linker_flavor: LinkerFlavor,
    pub linker: Option<&'static str>,
    pub llvm_abiname: &'static str,
    pub cpu: &'static str,
    pub features: &'static str,
    pub mcount: &'static str,
    pub atomic_cas: bool,
    pub max_atomic_width: Option<u32>,
    pub has_thread_local: bool,
    pub panic_strategy: PanicStrategy,
    pub relocation_model: RelocModel,
    pub emit_debug_gdb_scripts: bool,
    pub eh_frame_header: bool,
    pub pointer_type_width: Option<u32>,
    pub pre_link_args: Vec<PreLinkArgs>,
}

impl TargetOptions {
    /// The option values every platform base starts from.
    pub fn bare_defaults() -> (r: TargetOptions)
        ensures
            r.os@ == "none"@,
            r.linker_flavor == LinkerFlavor::Gnu(Cc::Yes, Lld::No),
            r.linker is None,
            r.llvm_abiname@ == ""@,
            r.cpu@ == "generic"@,
            r.features@ == ""@,
            r.mcount@ == "mcount"@,
            r.atomic_cas == true,
            r.max_atomic_width is None,
            r.has_thread_local == false,
            r.panic_strategy == PanicStrategy::Unwind,
            r.relocation_model == RelocModel::Pic,
            r.emit_debug_gdb_scripts == true,
            r.eh_frame_header == true,
            r.pointer_type_width is None,
            r.pre_link_args@.len() == 0,
    {
        TargetOptions {
            os: "none",
            linker_flavor: LinkerFlavor::Gnu(Cc::Yes, Lld::No),
            linker: None,
            llvm_abiname: "",
            cpu: "generic",
            features: "",
            mcount: "mcount",
            atomic_cas: true,
            max_atomic_width: None,
            has_thread_local: false,
            panic_strategy: PanicStrategy::Unwind,
            relocation_model: RelocModel::Pic,
            emit_debug_gdb_scripts: true,
            eh_frame_header: true,
            pointer_type_width: None,
            pre_link_args: Vec::new(),
        }
    }

    /// Appends one flavor's pre-link arguments, leaving every other option
    /// unchanged.
    pub fn add_pre_link_args(&mut self, flavor: LinkerFlavor, args: Vec<&'static str>)
        ensures
            final(self).pre_link_args@ == old(self).pre_link_args@.push(
                PreLinkArgs { flavor, args },
            ),
            final(self).os == old(self).os,
            final(self).linker_flavor == old(self).linker_flavor,
            final(self).linker == old(self).linker,
            final(self).llvm_abiname == old(self).llvm_abiname,
            final(self).cpu == old(self).cpu,
            final(self).features == old(self).features,
            final(self).mcount == old(self).mcount,
            final(self).atomic_cas == old(self).atomic_cas,
            final(self).max_atomic_width == old(self).max_atomic_width,
            final(self).has_thread_local == old(self).has_thread_local,
            final(self).panic_strategy == old(self).panic_strategy,
            final(self).relocation_model == old(self).relocation_model,
            final(self).emit_debug_gdb_scripts == old(self).emit_debug_gdb_scripts,
            final(self).eh_frame_header == old(self).eh_frame_header,
            final(self).pointer_type_width == old(self).pointer_type_width,
    {
        self.pre_link_args.push(PreLinkArgs { flavor, args });
    }
}

/// One target's description: the data-layout string handed to LLVM, the LLVM
/// target triple, the width of a pointer in bits, the architecture name, and
/// the options.
pub struct Target {
    pub data_layout: &'static str,
    pub llvm_target: &'static str,
    pub pointer_width: u32,
    pub arch: &'static str,
    pub options: TargetOptions,
}

} // verus!
