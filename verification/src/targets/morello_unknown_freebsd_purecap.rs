//! Morello pure-capability FreeBSD.

use vstd::prelude::*;

use crate::targets::{Cc, LinkerFlavor, Lld, Target, TargetOptions};

verus! {

pub fn target() -> (r: Target)
    ensures
        r.data_layout@ == "e-m:e-pf200:128:128:128:64-i8:8:32-i16:16:32-i64:64-i128:128-n32:64-S128-A200-P200-G200"@,
        r.llvm_target@ == "aarch64-unknown-freebsd-elf"@,
        r.pointer_width == 64,
        r.arch@ == "morello+c64"@,
        r.options.pointer_type_width == Some(128u32),
        r.options.linker matches Some(l) && l@ == "lld"@,
        r.options.llvm_abiname@ == "purecap"@,
        r.options.features@ == "+v8.2a,+morello,+c64"@,
        r.options.os@ == "freebsd"@,
        r.options.has_thread_local == true,
        r.options.linker_flavor == LinkerFlavor::Gnu(Cc::Yes, Lld::No),
        r.options.cpu@ == "generic"@,
        r.options.mcount@ == "mcount"@,
        r.options.atomic_cas == true,
        r.options.max_atomic_width is None,
        r.options.panic_strategy == crate::targets::PanicStrategy::Unwind,
        r.options.relocation_model == crate::targets::RelocModel::Pic,
        r.options.emit_debug_gdb_scripts == true,
        r.options.eh_frame_header == true,
        r.options.pre_link_args@.len() == 1,
        r.options.pre_link_args@[0].flavor == LinkerFlavor::Gnu(Cc::Yes, Lld::No),
        r.options.pre_link_args@[0].args@.len() == 2,
        r.options.pre_link_args@[0].args@[0]@ == "-march=morello+c64"@,
        r.options.pre_link_args@[0].args@[1]@ == "-mabi=purecap"@,
{
    let mut base = crate::targets::freebsd_base::opts();
    base.add_pre_link_args(
        LinkerFlavor::Gnu(Cc::Yes, Lld::No),
        vec!["-march=morello+c64", "-mabi=purecap"],
    );

    base.pointer_type_width = Some(128);
    base.linker = Some("lld");
    base.llvm_abiname = "purecap";
    base.features = "+v8.2a,+morello,+c64";

    Target {
        data_layout: "e-m:e-pf200:128:128:128:64-i8:8:32-i16:16:32-i64:64-i128:128-n32:64-S128-A200-P200-G200",
        llvm_target: "aarch64-unknown-freebsd-elf",
        pointer_width: 64,
        arch: "morello+c64",
        options: base,
    }
}

} // verus!
