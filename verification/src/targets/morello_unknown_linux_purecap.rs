//! Morello pure-capability Linux with musl.

use vstd::prelude::*;

use crate::targets::{Cc, LinkerFlavor, Lld, Target, TargetOptions};

verus! {

pub fn target() -> (r: Target)
    ensures
        r.llvm_target@ == "aarch64-unknown-linux-musl_purecap"@,
        r.pointer_width == 64,
        r.data_layout@ == "e-m:e-pf200:128:128:128:64-i8:8:32-i16:16:32-i64:64-i128:128-n32:64-S128-A200-P200-G200"@,
        r.arch@ == "morello+c64"@,
        r.options.pointer_type_width == Some(128u32),
        r.options.linker matches Some(l) && l@ == "lld"@,
        r.options.llvm_abiname@ == "purecap"@,
        r.options.features@ == "+v8.2a,+morello,+c64"@,
        r.options.mcount@ == "\u{1}_mcount"@,
        r.options.max_atomic_width == Some(128u32),
        r.options.has_thread_local == false,
        r.options.os@ == "linux"@,
        r.options.linker_flavor == LinkerFlavor::Gnu(Cc::Yes, Lld::No),
        r.options.cpu@ == "generic"@,
        r.options.atomic_cas == true,
        r.options.panic_strategy == crate::targets::PanicStrategy::Unwind,
        r.options.relocation_model == crate::targets::RelocModel::Pic,
        r.options.emit_debug_gdb_scripts == true,
        r.options.eh_frame_header == true,
        r.options.pre_link_args@.len() == 1,
        r.options.pre_link_args@[0].flavor == LinkerFlavor::Gnu(Cc::Yes, Lld::No),
        r.options.pre_link_args@[0].args@.len() == 2,
        r.options.pre_link_args@[0].args@[0]@ == "-march=morello+c64"@,
        r.options.pre_link_args@[0].args@[1]@ == "-mabi=purecap"@,
{
    let mut base = crate::targets::linux_musl_base::opts();
    base.add_pre_link_args(
        LinkerFlavor::Gnu(Cc::Yes, Lld::No),
        vec!["-march=morello+c64", "-mabi=purecap"],
    );
    base.max_atomic_width = Some(128);
    base.has_thread_local = false;

    base.pointer_type_width = Some(128);
    base.linker = Some("lld");
    base.llvm_abiname = "purecap";
    base.features = "+v8.2a,+morello,+c64";
    base.mcount = "\u{1}_mcount";

    Target {
        llvm_target: "aarch64-unknown-linux-musl_purecap",
        pointer_width: 64,
        data_layout: "e-m:e-pf200:128:128:128:64-i8:8:32-i16:16:32-i64:64-i128:128-n32:64-S128-A200-P200-G200",
        arch: "morello+c64",
        options: base,
    }
}

} // verus!
