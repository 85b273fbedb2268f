use lua_replace::unwind::{
    byte_search, decide_personality, decide_step, ip_is_in_module, personality_wrong_context,
    unwinder_addresses, Nro, Personality, Plugins, StepAction, StepEvent, UnwinderAddresses,
    URC_FATAL_PHASE2_ERROR, URC_HANDLER_FOUND, URC_INSTALL_CONTEXT,
};

#[test]
fn nro_bounds_are_exclusive() {
    let n = Nro::new(0x100, 0x200);
    assert_eq!((n.start, n.end), (0x100, 0x200));
    assert!(!n.contains(0x100));
    assert!(n.contains(0x101));
    assert!(n.contains(0x1FF));
    assert!(!n.contains(0x200));
    assert!(!Nro::new(5, 6).contains(5));
    assert!(!Nro::new(5, 6).contains(6));
}

#[test]
fn ip_in_some_module() {
    let nros = [Nro::new(0x100, 0x200), Nro::new(0x1000, 0x2000)];
    assert!(ip_is_in_module(&nros, 0x150));
    assert!(ip_is_in_module(&nros, 0x1500));
    assert!(!ip_is_in_module(&nros, 0x500));
    assert!(!ip_is_in_module(&[], 0x150));
}

#[test]
fn word_search_within_distance() {
    let words = [1u32, 0xB000B1E5, 3, 0xB000B1E5];
    assert_eq!(byte_search(&words, 0xB000B1E5, 4), Some(1));
    assert_eq!(byte_search(&words, 0xB000B1E5, 1), None);
    assert_eq!(byte_search(&words, 7, 4), None);
    assert_eq!(byte_search(&words, 1, 0), None);
}

#[test]
fn personality_search_phase_finds_handler() {
    let nros = [Nro::new(0x100, 0x200)];
    let p = decide_personality(1, 0x999, 0, &nros);
    assert_eq!(p, Personality::HandlerFound);
    assert_eq!(p.code(), URC_HANDLER_FOUND);
}

#[test]
fn personality_cleanup_phase() {
    let nros = [Nro::new(0x100, 0x200)];
    let p = decide_personality(2, 0x999, 0x150, &nros);
    assert_eq!(p, Personality::IpOutsidePlugins);
    assert_eq!(p.code(), URC_FATAL_PHASE2_ERROR);
    let p = decide_personality(2, 0x150, 0x1FC, &nros);
    assert_eq!(p, Personality::LandingPadOutsidePlugins);
    assert_eq!(p.code(), URC_FATAL_PHASE2_ERROR);
    let p = decide_personality(2, 0x150, 0x160, &nros);
    assert_eq!(p, Personality::InstallContext { landing_pad: 0x164 });
    assert_eq!(p.code(), URC_INSTALL_CONTEXT);
    assert!(personality_wrong_context(0));
    assert!(!personality_wrong_context(1));
}

#[test]
fn unwinder_step_decisions() {
    let nros = [Nro::new(0x100, 0x200)];
    assert_eq!(decide_step(StepEvent::Entered { at_bottom: true }, &nros), StepAction::Return { result: 0 });
    assert_eq!(decide_step(StepEvent::Entered { at_bottom: false }, &nros), StepAction::StepWithDwarf);
    assert_eq!(decide_step(StepEvent::Stepped { result: 1 }, &nros), StepAction::ReadIp);
    assert_eq!(decide_step(StepEvent::Stepped { result: 5 }, &nros), StepAction::Return { result: 5 });
    assert_eq!(decide_step(StepEvent::IpRead { ip: 0x150 }, &nros), StepAction::PatchUnwindInfo { ip: 0x150 });
    assert_eq!(decide_step(StepEvent::IpRead { ip: 0x50 }, &nros), StepAction::ResetInfo);
    assert_eq!(decide_step(StepEvent::InfoReset { at_bottom: true }, &nros), StepAction::Return { result: 0 });
    assert_eq!(decide_step(StepEvent::InfoReset { at_bottom: false }, &nros), StepAction::Return { result: 1 });
}

#[test]
fn unwinder_addresses_from_resume() {
    let a = unwinder_addresses(0x521960 + 0x10_0000);
    assert_eq!(
        a,
        UnwinderAddresses {
            step_with_dwarf: 0x10_0000 + 0x51ef30,
            set_info_based_on_ip_register: 0x10_0000 + 0x51ed50,
            unwind_cursor_step: 0x10_0000 + 0x51ec68,
            bad_info_check: 0x10_0000 + 0x51e5dc,
        }
    );
}

#[test]
fn plugins_register_once() {
    let mut p = Plugins::new();
    let r = p.register_user(1, 2);
    assert!(r.newly_registered && !r.missing_info);
    let r = p.register_user(1, 2);
    assert!(!r.newly_registered);
    let r = p.register_user(0, 2);
    assert!(r.newly_registered && r.missing_info);
    assert_eq!(p.nros, vec![Nro::new(1, 2), Nro::new(0, 2)]);
    assert!(p.contains(&Nro::new(0, 2)));
    assert!(!p.contains(&Nro::new(0, 3)));
}
