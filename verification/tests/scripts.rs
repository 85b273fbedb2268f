use lua_replace::scripts::{
    add_sys_line_fighter_callback, add_sys_line_weapon_callback, classify_nro, hot_patch_addresses,
    replace_lua_script, replace_status_script, replace_sys_line_fighter_script,
    replace_sys_line_weapon_script, select_sys_line_func, NroRole, Registry, ScriptCategory,
    ScriptInfo,
};
use lua_replace::unwind::Nro;

#[test]
fn script_info_equality_is_by_script_name() {
    let a = ScriptInfo { name: 0x1234, replace: 1 };
    let b = ScriptInfo { name: 0x1234, replace: 2 };
    let c = ScriptInfo { name: 0x1235, replace: 1 };
    assert!(a == b);
    assert!(a != c);
}

#[test]
fn first_replacement_of_a_script_stays() {
    let mut reg = Registry::new();
    let r1 = replace_lua_script(&mut reg, 0x1000, 0x2000, 7, 0xAA, 0x1100, ScriptCategory::GAME);
    assert!(r1.added);
    assert!(r1.registration.newly_registered);
    assert!(!r1.registration.missing_info);
    let r2 = replace_lua_script(&mut reg, 0x3000, 0x4000, 7, 0xAA, 0x3100, ScriptCategory::GAME);
    assert!(!r2.added);
    let r3 = replace_lua_script(&mut reg, 0x1000, 0x2000, 7, 0xBB, 0x1200, ScriptCategory::GAME);
    assert!(r3.added);
    assert!(!r3.registration.newly_registered);
    let list = reg.game.get(7).unwrap();
    assert_eq!(list.len(), 2);
    assert_eq!(list[0].name, 0xAA);
    assert_eq!(list[0].replace, 0x1100);
    assert_eq!(list[1].name, 0xBB);
    assert!(reg.effect.get(7).is_none());
    assert!(reg.sound.get(7).is_none());
    assert!(reg.expression.get(7).is_none());
    assert_eq!(reg.plugins.nros, vec![Nro::new(0x1000, 0x2000), Nro::new(0x3000, 0x4000)]);
}

#[test]
fn categories_are_separate() {
    let mut reg = Registry::new();
    for (i, c) in [ScriptCategory::EFFECT, ScriptCategory::EXPRESSION, ScriptCategory::GAME, ScriptCategory::SOUND]
        .into_iter()
        .enumerate()
    {
        let r = replace_lua_script(&mut reg, 1, 2, 5, 0xC0, i as u64, c);
        assert!(r.added);
    }
    assert_eq!(reg.effect.get(5).unwrap()[0].replace, 0);
    assert_eq!(reg.expression.get(5).unwrap()[0].replace, 1);
    assert_eq!(reg.game.get(5).unwrap()[0].replace, 2);
    assert_eq!(reg.sound.get(5).unwrap()[0].replace, 3);
    assert_eq!(reg.plugins.nros.len(), 1);
}

#[test]
fn missing_plugin_info_is_reported_but_registered() {
    let mut reg = Registry::new();
    let r = replace_status_script(&mut reg, 0, 0x2000, 9, 1, 2, 0x50);
    assert!(r.missing_info);
    assert!(r.newly_registered);
    assert_eq!(reg.plugins.nros, vec![Nro::new(0, 0x2000)]);
}

#[test]
fn status_replacements_are_all_kept() {
    let mut reg = Registry::new();
    replace_status_script(&mut reg, 1, 2, 9, 1, 2, 0x50);
    replace_status_script(&mut reg, 1, 2, 9, 1, 2, 0x60);
    replace_status_script(&mut reg, 1, 2, 10, 3, 4, 0x70);
    let l = reg.status.get(9).unwrap();
    assert_eq!(l.len(), 2);
    assert_eq!((l[0].status, l[0].condition, l[0].replace), (1, 2, 0x50));
    assert_eq!(l[1].replace, 0x60);
    assert_eq!(reg.status.get(10).unwrap()[0].replace, 0x70);
    assert!(reg.status.get(11).is_none());
}

#[test]
fn first_sys_line_replacement_stays() {
    let mut reg = Registry::new();
    assert!(replace_sys_line_fighter_script(&mut reg, 1, 2, 33, 0x10).added);
    assert!(!replace_sys_line_fighter_script(&mut reg, 1, 2, 33, 0x20).added);
    assert_eq!(reg.sys_fighter.map.get(&33), Some(&0x10));
    assert!(reg.sys_weapon.map.is_empty());
    assert!(replace_sys_line_weapon_script(&mut reg, 1, 2, 33, 0x30).added);
    assert!(!replace_sys_line_weapon_script(&mut reg, 3, 4, 33, 0x40).added);
    assert_eq!(reg.sys_weapon.map.get(&33), Some(&0x30));
    assert_eq!(reg.plugins.nros.len(), 2);
}

#[test]
fn callbacks_are_appended() {
    let mut reg = Registry::new();
    add_sys_line_fighter_callback(&mut reg, 1);
    add_sys_line_fighter_callback(&mut reg, 2);
    add_sys_line_weapon_callback(&mut reg, 3);
    assert_eq!(reg.fighter_callbacks, vec![1, 2]);
    assert_eq!(reg.weapon_callbacks, vec![3]);
}

#[test]
fn hot_patch_selects_last_matching_kind() {
    let entries = [(3, 0x30u64), (5, 0x50), (3, 0x31)];
    assert_eq!(select_sys_line_func(&entries, 3, 0xDEF), 0x31);
    assert_eq!(select_sys_line_func(&entries, 5, 0xDEF), 0x50);
    assert_eq!(select_sys_line_func(&entries, 4, 0xDEF), 0xDEF);
    assert_eq!(select_sys_line_func(&[], 4, 0xDEF), 0xDEF);
}

#[test]
fn modules_are_classified_by_name() {
    assert_eq!(classify_nro("common"), NroRole::Common);
    assert_eq!(classify_nro("item"), NroRole::Item);
    assert_eq!(classify_nro("mario"), NroRole::Fighter);
    assert_eq!(classify_nro("commo"), NroRole::Fighter);
    assert_eq!(classify_nro(""), NroRole::Fighter);
}

#[test]
fn hot_patch_addresses_are_offsets_from_the_base() {
    assert_eq!(hot_patch_addresses(0x8000_0000), (0x8001_74d0, 0x8000_5ecc));
}
