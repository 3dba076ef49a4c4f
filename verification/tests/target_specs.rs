use dwarf_eh::meth::VirtualIndex;
use dwarf_eh::targets::morello_unknown_freebsd_purecap;
use dwarf_eh::targets::morello_unknown_linux_purecap;
use dwarf_eh::targets::morello_unknown_none_purecap;
use dwarf_eh::targets::riscv32imcxcheri_unknown_none_purecap;
use dwarf_eh::targets::Cc;
use dwarf_eh::targets::LinkerFlavor;
use dwarf_eh::targets::Lld;
use dwarf_eh::targets::PanicStrategy;
use dwarf_eh::targets::RelocModel;

#[test]
fn morello_freebsd_target() {
    let t = morello_unknown_freebsd_purecap::target();
    assert_eq!(t.llvm_target, "aarch64-unknown-freebsd-elf");
    assert_eq!(t.pointer_width, 64);
    assert_eq!(t.arch, "morello+c64");
    assert_eq!(
        t.data_layout,
        "e-m:e-pf200:128:128:128:64-i8:8:32-i16:16:32-i64:64-i128:128-n32:64-S128-A200-P200-G200"
    );
    assert_eq!(t.options.pointer_type_width, Some(128));
    assert_eq!(t.options.linker, Some("lld"));
    assert_eq!(t.options.llvm_abiname, "purecap");
    assert_eq!(t.options.features, "+v8.2a,+morello,+c64");
    assert_eq!(t.options.os, "freebsd");
    assert_eq!(t.options.pre_link_args.len(), 1);
    assert_eq!(
        t.options.pre_link_args[0].flavor,
        LinkerFlavor::Gnu(Cc::Yes, Lld::No)
    );
    assert_eq!(
        t.options.pre_link_args[0].args,
        vec!["-march=morello+c64", "-mabi=purecap"]
    );
}

#[test]
fn morello_linux_target() {
    let t = morello_unknown_linux_purecap::target();
    assert_eq!(t.llvm_target, "aarch64-unknown-linux-musl_purecap");
    assert_eq!(t.pointer_width, 64);
    assert_eq!(t.arch, "morello+c64");
    assert_eq!(t.options.pointer_type_width, Some(128));
    assert_eq!(t.options.linker, Some("lld"));
    assert_eq!(t.options.llvm_abiname, "purecap");
    assert_eq!(t.options.mcount, "\u{1}_mcount");
    assert_eq!(t.options.max_atomic_width, Some(128));
    assert!(!t.options.has_thread_local);
    assert_eq!(t.options.os, "linux");
    assert_eq!(t.options.pre_link_args.len(), 1);
}

#[test]
fn morello_bare_metal_target() {
    let t = morello_unknown_none_purecap::target();
    assert_eq!(t.llvm_target, "aarch64-unknown-none-elf");
    assert_eq!(t.pointer_width, 64);
    assert_eq!(t.arch, "morello+c64");
    assert_eq!(t.options.linker_flavor, LinkerFlavor::Gnu(Cc::No, Lld::Yes));
    assert_eq!(t.options.linker, Some("lld"));
    assert_eq!(t.options.cpu, "generic");
    assert!(t.options.atomic_cas);
    assert_eq!(t.options.panic_strategy, PanicStrategy::Abort);
    assert_eq!(t.options.relocation_model, RelocModel::Static);
    assert!(!t.options.emit_debug_gdb_scripts);
    assert!(!t.options.eh_frame_header);
    assert_eq!(t.options.os, "none");
}

#[test]
fn riscv_cheri_bare_metal_target() {
    let t = riscv32imcxcheri_unknown_none_purecap::target();
    assert_eq!(t.llvm_target, "riscv32-unknown-none-purecap");
    assert_eq!(t.pointer_width, 32);
    assert_eq!(t.arch, "riscv32");
    assert_eq!(
        t.data_layout,
        "e-m:e-pf200:64:64:64:32-p:32:32-i64:64-n32-S128-A200-P200-G200"
    );
    assert_eq!(t.options.pointer_type_width, Some(64));
    assert_eq!(t.options.linker, Some("rust-lld"));
    assert_eq!(t.options.llvm_abiname, "il32pc64");
    assert_eq!(t.options.cpu, "generic-rv32");
    assert_eq!(t.options.features, "+m,+a,+c,+xcheri,+cap-mode");
    assert_eq!(t.options.panic_strategy, PanicStrategy::Abort);
    assert_eq!(t.options.relocation_model, RelocModel::Static);
}

#[test]
fn virtual_index_from_index_and_offset() {
    let i = VirtualIndex::from_index(3);
    assert_eq!(i.0, 3);
    assert_eq!(i.byte_offset(8), 24);
    assert_eq!(i.byte_offset(16), 48);
    assert_eq!(VirtualIndex::from_index(0).byte_offset(8), 0);
}
