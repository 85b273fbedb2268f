use lua_replace::rtld::{gen_rtld_elf_hash, ElfSymbol, SymbolTable};
use lua_replace::scripts::{replace_lua_script, replace_status_script, Registry, ScriptCategory, StatusTable};
use lua_replace::silent::{
    byte_search, get_hashes, get_movk_offset, make_sym, plan_animcmd_agent, remove_fighter_funcs,
    set_fighter_func, set_fighter_funcs, setup_status_agent, status_scripts_plan, A64Instr,
    CreateAgentInfo, CreatorKind, CreatorTable, Creators, DecodedWord, FoundCreator, FuncPatch,
    StatusAgentInfo, StatusAgents, StatusSetup,
};

fn movz(rd: u8, imm16: u16) -> DecodedWord {
    DecodedWord { raw: 0xD280_0000 | ((imm16 as u32) << 5) | rd as u32, instr: Some(A64Instr::Movz { imm16, rd }) }
}
fn movk(rd: u8, imm16: u16, hw: u32) -> DecodedWord {
    DecodedWord {
        raw: 0xF280_0000 | (hw << 21) | ((imm16 as u32) << 5) | rd as u32,
        instr: Some(A64Instr::Movk { imm16, rd }),
    }
}
fn subs(rm: u8) -> DecodedWord {
    DecodedWord { raw: 0xEB00_001F | ((rm as u32) << 16), instr: Some(A64Instr::Subs { rm }) }
}
fn ret() -> DecodedWord {
    DecodedWord { raw: 0xD65F_03C0, instr: Some(A64Instr::Ret) }
}

#[test]
fn movk_offset_is_the_hw_field() {
    assert_eq!(get_movk_offset(0xF280_0000), 0);
    assert_eq!(get_movk_offset(0xF2A0_0000), 1);
    assert_eq!(get_movk_offset(0xF2C0_0000), 2);
    assert_eq!(get_movk_offset(0xF2E0_0000), 3);
    assert_eq!(get_movk_offset(0xFFFF_FFFF), 3);
}

#[test]
fn hashes_are_built_from_move_wide_instructions() {
    let code = [
        movz(8, 0x1234),
        movk(8, 0x5678, 1),
        movk(8, 0x9ABC, 2),
        movk(8, 0x00DE, 3),
        subs(8),
        movz(9, 7),
        subs(9),
        DecodedWord { raw: 0, instr: Some(A64Instr::Other) },
        subs(8),
        ret(),
        subs(9),
    ];
    assert_eq!(get_hashes(&code), vec![0x00DE_9ABC_5678_1234, 7, 0x00DE_9ABC_5678_1234]);
}

#[test]
fn hash_scan_stops_at_undecodable_word_or_end() {
    let code = [movz(1, 5), subs(1), DecodedWord { raw: 0, instr: None }, subs(1)];
    assert_eq!(get_hashes(&code), vec![5]);
    let code = [subs(2), movz(2, 3), subs(2)];
    assert_eq!(get_hashes(&code), vec![0, 3]);
    assert_eq!(get_hashes(&[]), Vec::<u64>::new());
    // a register index of 31 after the stop is never read
    assert_eq!(get_hashes(&[ret(), subs(31)]), Vec::<u64>::new());
}

#[test]
fn mangled_creator_symbol() {
    assert_eq!(
        make_sym("mario", "animcmd_game"),
        "_ZN7lua2cpp39create_agent_fighter_animcmd_game_marioEN3phx6Hash40EPN3app12BattleObjectEPNS2_26BattleObjectModuleAccessorEP9lua_State"
    );
    assert_eq!(CreatorKind::SoundShare.symbol_kind(), "animcmd_sound_share");
    assert_eq!(CreatorKind::Status.symbol_kind(), "status_script");
    assert_eq!(CreatorKind::ExpressionShare.category(), Some(ScriptCategory::EXPRESSION));
    assert_eq!(CreatorKind::Status.category(), None);
}

fn found(kind: CreatorKind, original: u64, hashes: Vec<u64>) -> FoundCreator {
    FoundCreator { kind, original, hashes }
}

#[test]
fn creators_are_recorded_per_module_and_removed() {
    let mut c = Creators::new();
    set_fighter_funcs(
        &mut c,
        "mario",
        vec![found(CreatorKind::Game, 0x100, vec![1, 2]), found(CreatorKind::Effect, 0, vec![9])],
    );
    set_fighter_funcs(&mut c, "luigi", vec![found(CreatorKind::Game, 0x200, vec![3])]);
    assert_eq!(c.game.entries.len(), 2);
    assert!(c.effect.entries.is_empty());
    assert_eq!(c.game.find_creator(2), Some(0));
    assert_eq!(c.game.find_creator(3), Some(1));
    assert_eq!(c.game.find_creator(4), None);
    // loading a module again replaces its creator in place
    set_fighter_funcs(&mut c, "mario", vec![found(CreatorKind::Game, 0x300, vec![4])]);
    assert_eq!(c.game.entries.len(), 2);
    assert_eq!(c.game.entries[0].module, "mario");
    assert_eq!(c.game.entries[0].info.original, 0x300);
    assert_eq!(c.game.find_creator(4), Some(0));
    assert_eq!(c.game.find_creator(2), None);
    remove_fighter_funcs(&mut c, "mario");
    assert_eq!(c.game.entries.len(), 1);
    assert_eq!(c.game.entries[0].module, "luigi");
    remove_fighter_funcs(&mut c, "peach");
    assert_eq!(c.game.entries.len(), 1);
}

#[test]
fn creator_table_insert_and_remove() {
    let mut t = CreatorTable::new();
    t.insert("a", CreateAgentInfo { original: 1, hashes: vec![10] });
    t.insert("b", CreateAgentInfo { original: 2, hashes: vec![10, 11] });
    assert_eq!(t.find_creator(10), Some(0));
    assert_eq!(t.find_creator(11), Some(1));
    t.remove("a");
    assert_eq!(t.find_creator(10), Some(0));
    assert_eq!(t.entries[0].module, "b");
}

#[test]
fn animcmd_agent_plan_prefers_own_scripts_then_common() {
    let common = 0xC0C0;
    let mut c = Creators::new();
    set_fighter_funcs(&mut c, "mario", vec![found(CreatorKind::EffectShare, 0x500, vec![7, 8])]);
    let mut reg = Registry::new();
    replace_lua_script(&mut reg, 1, 2, 7, 0xAA, 0x10, ScriptCategory::EFFECT);
    replace_lua_script(&mut reg, 1, 2, common, 0xBB, 0x20, ScriptCategory::EFFECT);
    let (orig, moves) = plan_animcmd_agent(&c, CreatorKind::EffectShare, &reg, 7, common).unwrap();
    assert_eq!(orig, 0x500);
    assert_eq!(moves.unwrap()[0].name, 0xAA);
    let (_, moves) = plan_animcmd_agent(&c, CreatorKind::EffectShare, &reg, 8, common).unwrap();
    assert_eq!(moves.unwrap()[0].name, 0xBB);
    assert!(plan_animcmd_agent(&c, CreatorKind::EffectShare, &reg, 9, common).is_none());
    assert!(plan_animcmd_agent(&c, CreatorKind::Effect, &reg, 7, common).is_none());
    let empty = Registry::new();
    let (_, moves) = plan_animcmd_agent(&c, CreatorKind::EffectShare, &empty, 7, common).unwrap();
    assert!(moves.is_none());
}

fn info(hash: u64, base: u64) -> StatusAgentInfo {
    StatusAgentInfo { hash, set_status_func: base, status_dtor: base + 1, status_del_dtor: base + 2 }
}

#[test]
fn status_agents_share_hooks_per_fighter() {
    let mut a = StatusAgents::new();
    assert_eq!(setup_status_agent(&mut a, 0x1000, 5), StatusSetup::NeedsHook);
    a.insert(0x1000, info(5, 0x50));
    assert_eq!(setup_status_agent(&mut a, 0x2000, 5), StatusSetup::Reused);
    assert_eq!(a.get(0x2000), Some(info(5, 0x50)));
    assert_eq!(setup_status_agent(&mut a, 0x3000, 6), StatusSetup::NeedsHook);
    assert_eq!(a.get(0x3000), None);
    assert_eq!(a.take(0x1000), info(5, 0x50));
    assert_eq!(a.get(0x1000), None);
    assert_eq!(a.find_by_hash(5), Some(info(5, 0x50)));
    assert_eq!(a.take(0x2000), info(5, 0x50));
    assert_eq!(a.find_by_hash(5), None);
}

#[test]
fn status_plan_uses_common_only_for_fighters() {
    let common = 0xC0C0;
    let mut reg = Registry::new();
    replace_status_script(&mut reg, 1, 2, common, 1, 2, 0x10);
    replace_status_script(&mut reg, 1, 2, 7, 3, 4, 0x20);
    let (c, own) = status_scripts_plan(&reg.status, 7, common, true);
    assert_eq!(c.unwrap()[0].replace, 0x10);
    assert_eq!(own.unwrap()[0].replace, 0x20);
    let (c, own) = status_scripts_plan(&reg.status, 7, common, false);
    assert!(c.is_none());
    assert!(own.is_some());
    let empty = StatusTable::new();
    let (c, own) = status_scripts_plan(&empty, 7, common, true);
    assert!(c.is_none() && own.is_none());
}

#[test]
fn creator_symbol_lookup_plans_the_patch() {
    let name = make_sym("mario", "animcmd_game");
    let mut strtab = vec![0u8];
    strtab.extend_from_slice(name.as_bytes());
    strtab.push(0);
    let symbols = vec![
        ElfSymbol { name: 0, shndx: 0, value: 0 },
        ElfSymbol { name: 1, shndx: 9, value: 0x4000 },
    ];
    let nbucket = 2u32;
    let mut buckets = vec![0u32; 2];
    buckets[(gen_rtld_elf_hash(name.as_bytes()) % nbucket) as usize] = 1;
    let t = SymbolTable { buckets, chains: vec![0, 0], symbols, strtab };
    assert_eq!(
        set_fighter_func(&t, "mario", 0x10_0000, CreatorKind::Game, 0x20_0000),
        Some(FuncPatch { symbol: 1, original: 0x10_4000, new_value: 0x10_0000 })
    );
    // a replacement below the module base wraps around
    assert_eq!(
        set_fighter_func(&t, "mario", 0x10_0000, CreatorKind::Game, 0x8_0000),
        Some(FuncPatch { symbol: 1, original: 0x10_4000, new_value: 0u64.wrapping_sub(0x8_0000) })
    );
    assert_eq!(set_fighter_func(&t, "luigi", 0x10_0000, CreatorKind::Game, 0x20_0000), None);
    assert_eq!(set_fighter_func(&t, "mario", 0x10_0000, CreatorKind::Sound, 0x20_0000), None);
}

#[test]
fn text_search_finds_the_needle() {
    assert_eq!(byte_search(&[5, 1, 2, 9], 0x1000, &[1, 2]), Some(0x1004));
    assert_eq!(byte_search(&[1, 2], 0x1000, &[1, 2]), Some(0x1000));
    assert_eq!(byte_search(&[5, 6, 7], 0x1000, &[1, 2]), None);
}

#[test]
fn text_search_quirks() {
    // a mismatch does not re-test the current word: this match is missed
    assert_eq!(byte_search(&[1, 1, 2], 0x1000, &[1, 2]), None);
    // a partial match at the end of the text is returned
    assert_eq!(byte_search(&[5, 1], 0x1000, &[1, 2]), Some(0x1004));
    // an empty needle never matches
    assert_eq!(byte_search(&[1, 2], 0x1000, &[]), None);
    // a match at address 0 reads as no match
    assert_eq!(byte_search(&[1, 2], 0, &[1, 2]), None);
}

#[test]
fn loading_then_unloading_a_module_restores_the_tables() {
    let mut c = Creators::new();
    set_fighter_funcs(&mut c, "luigi", vec![found(CreatorKind::Sound, 0x10, vec![1])]);
    set_fighter_funcs(
        &mut c,
        "mario",
        vec![found(CreatorKind::Sound, 0x20, vec![2]), found(CreatorKind::Status, 0x30, vec![3])],
    );
    remove_fighter_funcs(&mut c, "mario");
    assert_eq!(c.sound.entries.len(), 1);
    assert_eq!(c.sound.entries[0].module, "luigi");
    assert_eq!(c.sound.entries[0].info.original, 0x10);
    assert!(c.status.entries.is_empty());
}

#[test]
fn text_search_full_match_is_an_occurrence() {
    let text = [9u32, 4, 5, 6, 4, 5, 6];
    let a = byte_search(&text, 0x100, &[4, 5, 6]).unwrap();
    let p = (a - 0x100) / 4;
    assert_eq!(&text[p..p + 3], &[4, 5, 6]);
}
