//! Morello pure-capability bare metal.

use vstd::prelude::*;

use crate::targets::{Cc, LinkerFlavor, Lld, PanicStrategy, RelocModel, Target, TargetOptions};

verus! {

pub fn target() -> (r: Target)
    ensures
        r.data_layout@ == "e-m:e-pf200:128:128:128:64-i8:8:32-i16:16:32-i64:64-i128:128-n32:64-S128-A200-P200-G200"@,
        r.llvm_target@ == "aarch64-unknown-none-elf"@,
        r.pointer_width == 64,
        r.arch@ == "morello+c64"@,
        r.options.pointer_type_width == Some(128u32),
        r.options.linker_flavor == LinkerFlavor::Gnu(Cc::No, Lld::Yes),
        r.options.linker matches Some(l) && l@ == "lld"@,
        r.options.llvm_abiname@ == "purecap"@,
        r.options.cpu@ == "generic"@,
        r.options.atomic_cas == true,
        r.options.features@ == "+v8.2a,+morello,+c64"@,
        r.options.panic_strategy == PanicStrategy::Abort,
        r.options.relocation_model == RelocModel::Static,
        r.options.emit_debug_gdb_scripts == false,
        r.options.eh_frame_header == false,
        r.options.os@ == "none"@,
        r.options.mcount@ == "mcount"@,
        r.options.max_atomic_width is None,
        r.options.has_thread_local == false,
        r.options.pre_link_args@.len() == 0,
{
    let mut options = TargetOptions::bare_defaults();
    options.pointer_type_width = Some(128);
    options.linker_flavor = LinkerFlavor::Gnu(Cc::No, Lld::Yes);
    options.linker = Some("lld");
    options.llvm_abiname = "purecap";
    options.cpu = "generic";
    options.atomic_cas = true;
    options.features = "+v8.2a,+morello,+c64";
    options.panic_strategy = PanicStrategy::Abort;
    options.relocation_model = RelocModel::Static;
    options.emit_debug_gdb_scripts = false;
    options.eh_frame_header = false;

    Target {
        data_layout: "e-m:e-pf200:128:128:128:64-i8:8:32-i16:16:32-i64:64-i128:128-n32:64-S128-A200-P200-G200",
        llvm_target: "aarch64-unknown-none-elf",
        pointer_width: 64,
        arch: "morello+c64",
        options,
    }
}

} // verus!
