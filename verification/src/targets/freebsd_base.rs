//! The options shared by the FreeBSD targets, as far as this material sets
//! them.

use vstd::prelude::*;

use crate::targets::TargetOptions;

verus! {

pub fn opts() -> (r: TargetOptions)
    ensures
        r.os@ == "freebsd"@,
        r.has_thread_local == true,
        r.linker_flavor == crate::targets::LinkerFlavor::Gnu(
            crate::targets::Cc::Yes,
            crate::targets::Lld::No,
        ),
        r.linker is None,
        r.llvm_abiname@ == ""@,
        r.cpu@ == "generic"@,
        r.features@ == ""@,
        r.mcount@ == "mcount"@,
        r.atomic_cas == true,
        r.max_atomic_width is None,
        r.panic_strategy == crate::targets::PanicStrategy::Unwind,
        r.relocation_model == crate::targets::RelocModel::Pic,
        r.emit_debug_gdb_scripts == true,
        r.eh_frame_header == true,
        r.pointer_type_width is None,
        r.pre_link_args@.len() == 0,
{
    let mut base = TargetOptions::bare_defaults();
    base.os = "freebsd";
    base.has_thread_local = true;
    base
}

} // verus!
