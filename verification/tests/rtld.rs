use lua_replace::rtld::{gen_rtld_elf_hash, get_symbol_by_name, rtld_str_compare, ElfSymbol, SymbolTable};

#[test]
fn elf_hash_known_values() {
    assert_eq!(gen_rtld_elf_hash(b"printf"), 0x077905a6);
    assert_eq!(gen_rtld_elf_hash(b"exit"), 0x0006cf04);
    assert_eq!(gen_rtld_elf_hash(b""), 0);
    assert_eq!(gen_rtld_elf_hash(b"_Unwind_Resume"), 0x08d2aad5);
}

#[test]
fn elf_hash_stops_at_nul() {
    assert_eq!(gen_rtld_elf_hash(b"abc\0def"), 0x6783);
    assert_eq!(gen_rtld_elf_hash(b"abc\0def"), gen_rtld_elf_hash(b"abc"));
    assert_eq!(gen_rtld_elf_hash(b"abc\0"), gen_rtld_elf_hash(b"abc"));
}

#[test]
fn elf_hash_keeps_the_top_nibble_clear() {
    let long = b"create_agent_fighter_animcmd_game_mario";
    assert_eq!(gen_rtld_elf_hash(long), 0x06324b1f);
    assert!(gen_rtld_elf_hash(long) < 0x1000_0000);
    assert!(gen_rtld_elf_hash(&[0xFF; 64]) < 0x1000_0000);
}

#[test]
fn str_compare_results() {
    assert_eq!(rtld_str_compare(b"abc", b"abc\0zzz"), 0);
    assert_eq!(rtld_str_compare(b"abc\0x", b"abc\0y"), 0);
    assert_eq!(rtld_str_compare(b"abd", b"abc"), 1);
    // the byte difference is taken modulo 256
    assert_eq!(rtld_str_compare(b"abc", b"abd"), 255);
    assert_eq!(rtld_str_compare(b"ab", b"abc"), 256 - 99);
    assert_eq!(rtld_str_compare(b"", b""), 0);
}

fn table_with(names: &[&str], shndx: &[u16]) -> SymbolTable {
    // symbol 0 is the null symbol; symbol i + 1 is names[i]
    let mut strtab = vec![0u8];
    let mut symbols = vec![ElfSymbol { name: 0, shndx: 0, value: 0 }];
    for (i, n) in names.iter().enumerate() {
        let off = strtab.len() as u32;
        strtab.extend_from_slice(n.as_bytes());
        strtab.push(0);
        symbols.push(ElfSymbol { name: off, shndx: shndx[i], value: 0x100 * (i as u64 + 1) });
    }
    let nbucket = 3u32;
    let mut buckets = vec![0u32; nbucket as usize];
    let mut chains = vec![0u32; symbols.len()];
    for i in 1..symbols.len() {
        let h = gen_rtld_elf_hash(names[i - 1].as_bytes()) % nbucket;
        chains[i] = buckets[h as usize];
        buckets[h as usize] = i as u32;
    }
    SymbolTable { buckets, chains, symbols, strtab }
}

#[test]
fn symbol_lookup_finds_defined_symbols() {
    let names = ["alpha", "beta", "gamma", "delta", "epsilon"];
    let t = table_with(&names, &[1, 1, 1, 1, 1]);
    for (i, n) in names.iter().enumerate() {
        assert_eq!(get_symbol_by_name(&t, n), Some(i as u32 + 1));
    }
    assert_eq!(get_symbol_by_name(&t, "zeta"), None);
    assert_eq!(get_symbol_by_name(&t, "alph"), None);
}

#[test]
fn symbol_lookup_skips_undefined_and_common_symbols() {
    let t = table_with(&["alpha", "beta", "gamma"], &[0, 0xFFF2, 7]);
    assert_eq!(get_symbol_by_name(&t, "alpha"), None);
    assert_eq!(get_symbol_by_name(&t, "beta"), None);
    assert_eq!(get_symbol_by_name(&t, "gamma"), Some(3));
}
