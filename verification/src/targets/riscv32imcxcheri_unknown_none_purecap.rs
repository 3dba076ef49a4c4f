//! CHERI RISC-V 32-bit pure-capability bare metal.

use vstd::prelude::*;

use crate::targets::{Cc, LinkerFlavor, Lld, PanicStrategy, RelocModel, Target, TargetOptions};

verus! {

pub fn target() -> (r: Target)
    ensures
        r.data_layout@ == "e-m:e-pf200:64:64:64:32-p:32:32-i64:64-n32-S128-A200-P200-G200"@,
        r.llvm_target@ == "riscv32-unknown-none-purecap"@,
        r.pointer_width == 32,
        r.arch@ == "riscv32"@,
        r.options.pointer_type_width == Some(64u32),
        r.options.linker_flavor == LinkerFlavor::Gnu(Cc::No, Lld::Yes),
        r.options.linker matches Some(l) && l@ == "rust-lld"@,
        r.options.llvm_abiname@ == "il32pc64"@,
        r.options.cpu@ == "generic-rv32"@,
        r.options.atomic_cas == true,
        r.options.features@ == "+m,+a,+c,+xcheri,+cap-mode"@,
        r.options.panic_strategy == PanicStrategy::Abort,
        r.options.relocation_model == RelocModel::Static,
        r.options.emit_debug_gdb_scripts == false,
        r.options.eh_frame_header == false,
        r.options.os@ == "none"@,
        r.options.mcount@ == "mcount"@,
        r.options.max_atomic_width is None,
        r.options.has_thread_local == false,
        r.options.pre_link_args@.len() == 0,
{
    let mut options = TargetOptions::bare_defaults();
    options.pointer_type_width = Some(64);
    options.linker_flavor = LinkerFlavor::Gnu(Cc::No, Lld::Yes);
    options.linker = Some("rust-lld");
    options.llvm_abiname = "il32pc64";
    options.cpu = "generic-rv32";
    options.atomic_cas = true;
    options.features = "+m,+a,+c,+xcheri,+cap-mode";
    options.panic_strategy = PanicStrategy::Abort;
    options.relocation_model = RelocModel::Static;
    options.emit_debug_gdb_scripts = false;
    options.eh_frame_header = false;

    Target {
        data_layout: "e-m:e-pf200:64:64:64:32-p:32:32-i64:64-n32-S128-A200-P200-G200",
        llvm_target: "riscv32-unknown-none-purecap",
        pointer_width: 32,
        arch: "riscv32",
        options,
    }
}

} // verus!
