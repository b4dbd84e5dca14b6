use roxtract::{Rom, RomDecodeError, RomLoadError};

/// A minimal well-formed image, 0x54 bytes:
///
/// - 0x00: the kernel anchor `MODULE#\0`;
/// - 0x08: first chain length word (0x28), so the first module body is at
///   0x0c with its title-offset word at 0x1c pointing at `UtilityModule\0`
///   (0x20);
/// - 0x30: second length word (0x20), a module titled `TestMod` at 0x34;
/// - 0x50: the zero terminator word.
fn build_rom_image() -> Vec<u8> {
    let mut v = vec![0u8; 0x54];
    v[0..8].copy_from_slice(b"MODULE#\0");
    v[0x08] = 0x28;
    v[0x1c] = 0x14;
    v[0x20..0x2e].copy_from_slice(b"UtilityModule\0");
    v[0x30] = 0x20;
    v[0x44] = 0x14;
    v[0x48..0x50].copy_from_slice(b"TestMod\0");
    v
}

#[test]
fn rom_rejects_invalid_sizes() {
    // not a multiple of 4
    assert!(matches!(Rom::from_mem(vec![0u8; 5]), Err(RomLoadError::RomInvalidSize)));
    assert!(matches!(Rom::from_mem(vec![0u8; 2]), Err(RomLoadError::RomInvalidSize)));
    // over the 12 MiB ceiling
    assert!(matches!(
        Rom::from_mem(vec![0u8; (12 << 20) + 4]),
        Err(RomLoadError::RomInvalidSize)
    ));
    // acceptable sizes
    assert!(Rom::from_mem(vec![0u8; 0]).is_ok());
    assert!(Rom::from_mem(vec![0u8; 8]).is_ok());
    assert!(Rom::from_mem(vec![0u8; 12 << 20]).is_ok());
}

#[test]
fn rom_size_check_before_any_read() {
    // the same predicate a loader consults before reading a file's bytes
    assert!(!Rom::size_ok(5));
    assert!(!Rom::size_ok(7));
    assert!(Rom::size_ok(0));
    assert!(Rom::size_ok(8));
    assert!(Rom::size_ok(12 << 20));
    assert!(!Rom::size_ok((12 << 20) + 4));
    assert!(!Rom::size_ok(u64::MAX));
}

#[test]
fn rom_resolves_offsets() {
    let image = build_rom_image();
    let mut rom = Rom::from_mem(image.clone()).unwrap();
    assert_eq!(rom.as_slice(), image.as_slice());
    assert_eq!(rom.as_slice32().len(), 0x54);

    assert_eq!(rom.kernel_start(), Some(8));
    // memoized: a second query answers the same
    assert_eq!(rom.kernel_start(), Some(8));

    assert_eq!(rom.module_chain_start(), Some(8));
    assert_eq!(rom.module_chain_start(), Some(8));
}

#[test]
fn rom_absent_offsets_stay_absent() {
    let mut rom = Rom::from_mem(vec![0u8; 16]).unwrap();
    assert_eq!(rom.kernel_start(), None);
    assert_eq!(rom.kernel_start(), None);
    assert_eq!(rom.module_chain_start(), None);
    assert_eq!(rom.module_chain_start(), None);
}

#[test]
fn module_chain_walk() {
    let image = build_rom_image();
    let mut rom = Rom::from_mem(image).unwrap();
    let mut chain = rom.module_chain();

    let first = chain.next().unwrap();
    assert_eq!(first.offset(), 0x0c);
    assert_eq!(first.data().len(), 0x24);
    assert_eq!(first.title().unwrap().as_slice(), b"UtilityModule");

    let second = chain.next().unwrap();
    assert_eq!(second.offset(), 0x34);
    assert_eq!(second.data().len(), 0x1c);
    assert_eq!(second.title().unwrap().as_slice(), b"TestMod");

    assert!(chain.next().is_none());
    assert!(chain.next().is_none());
}

#[test]
fn module_chain_on_terminator_word_is_empty() {
    // a buffer holding only one length word yields no module
    let mut rom = Rom::from_mem(vec![4, 0, 0, 0]).unwrap();
    let mut chain = rom.module_chain();
    assert!(chain.next().is_none());

    let mut rom = Rom::from_mem(vec![0, 0, 0, 0]).unwrap();
    let mut chain = rom.module_chain();
    assert!(chain.next().is_none());
}

#[test]
fn module_title_failures_collapse_to_unterminated() {
    // title-offset word pushes past the module's end
    let mut image = build_rom_image();
    image[0x44] = 0xff;
    let mut rom = Rom::from_mem(image).unwrap();
    let mut chain = rom.module_chain();
    let _ = chain.next().unwrap();
    let second = chain.next().unwrap();
    assert!(matches!(second.title(), Err(RomDecodeError::UnterminatedCstr)));

    // the title string runs to the module's end without a terminator
    let mut image = build_rom_image();
    image[0x48..0x50].copy_from_slice(b"TestMod!");
    let mut rom = Rom::from_mem(image).unwrap();
    let mut chain = rom.module_chain();
    let _ = chain.next().unwrap();
    let second = chain.next().unwrap();
    assert!(matches!(second.title(), Err(RomDecodeError::UnterminatedCstr)));
}

#[test]
fn module_chain_stops_on_truncated_record() {
    // a length word that overruns the image ends the enumeration
    let mut image = build_rom_image();
    image[0x30] = 0xff; // the second record now overruns the image
    let mut rom = Rom::from_mem(image).unwrap();
    let mut chain = rom.module_chain();
    let first = chain.next().unwrap();
    assert_eq!(first.offset(), 0x0c);
    assert!(chain.next().is_none());
    assert!(chain.next().is_none());
}
