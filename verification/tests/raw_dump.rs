use lua_replace::raw_dump::{
    perform, print_address, print_dump_header, print_pretty, print_raw, print_row, to_ascii_dots,
};

#[test]
fn dump_of_three_bytes() {
    let out = perform(0x1000, &[0x41, 0x42, 0x00]);
    assert_eq!(
        out,
        "     00 01 02 03 04 05 06 07  08 09 0A 0B 0C 0D 0E 0F │ 0123456789ABCDEF\n     ─────────────────────────────────────────────────┼─────────────────\n1000 41 42 00                                         │ AB.\n"
    );
}

#[test]
fn dump_spanning_two_rows_pads_the_address() {
    let data: Vec<u8> = (0x7cu8..0x7c + 17).collect();
    let out = perform(0xFF0, &data);
    assert_eq!(
        out,
        "     00 01 02 03 04 05 06 07  08 09 0A 0B 0C 0D 0E 0F │ 0123456789ABCDEF\n     ─────────────────────────────────────────────────┼─────────────────\n0FF0 7C 7D 7E 7F 80 81 82 83  84 85 86 87 88 89 8A 8B │ |}~.............\n1000 8C                                               │ .\n"
    );
}

#[test]
fn dump_of_nothing_is_only_the_header() {
    let out = perform(0, &[]);
    assert_eq!(
        out,
        "  00 01 02 03 04 05 06 07  08 09 0A 0B 0C 0D 0E 0F │ 0123456789ABCDEF\n  ─────────────────────────────────────────────────┼─────────────────\n"
    );
    assert_eq!(out.lines().count(), 2);
}

#[test]
fn dump_shows_latin1_and_dots() {
    let out = perform(0x20, &[0xAD, 0xA1, 0xE9, 0x7E, 0x1F, 0x20]);
    assert_eq!(
        out,
        "   00 01 02 03 04 05 06 07  08 09 0A 0B 0C 0D 0E 0F │ 0123456789ABCDEF\n   ─────────────────────────────────────────────────┼─────────────────\n20 AD A1 E9 7E 1F 20                                │ .¡é~. \n"
    );
}

#[test]
fn row_width_follows_address_plus_length() {
    let data = [0x61u8; 20];
    assert_eq!(
        print_row(0xFFF8, &data, 1),
        "10008 61 61 61 61                                      │ aaaa\n"
    );
}

#[test]
fn row_at_the_end_of_the_data_is_empty() {
    let data = [0x61u8; 16];
    assert_eq!(
        print_row(0, &data, 1),
        "10                                                  │ \n"
    );
}

#[test]
fn a_dump_has_one_row_per_sixteen_bytes() {
    for n in [1usize, 15, 16, 17, 32, 33] {
        let data = vec![0u8; n];
        let out = perform(0x100, &data);
        assert_eq!(out.lines().count(), 2 + (n + 15) / 16);
    }
}

#[test]
fn ascii_dots_classes() {
    assert_eq!(to_ascii_dots(0x00), '.');
    assert_eq!(to_ascii_dots(0x1F), '.');
    assert_eq!(to_ascii_dots(0x20), ' ');
    assert_eq!(to_ascii_dots(b'z'), 'z');
    assert_eq!(to_ascii_dots(0x7E), '~');
    assert_eq!(to_ascii_dots(0x7F), '.');
    assert_eq!(to_ascii_dots(0xA0), '.');
    assert_eq!(to_ascii_dots(0xA1), '¡');
    assert_eq!(to_ascii_dots(0xAD), '.');
    assert_eq!(to_ascii_dots(0xFF), 'ÿ');
}

#[test]
fn header_and_columns() {
    assert!(print_dump_header(0xFFFF, 1).starts_with("      00 01"));
    assert_eq!(print_address(0xAB, 0x100), "0AB ");
    assert_eq!(print_address(0, 0), "0 ");
    assert_eq!(
        print_raw(&[1, 2, 3, 4, 5, 6, 7, 8, 9, 10, 11, 12, 13, 14, 15, 16]),
        "01 02 03 04 05 06 07 08  09 0A 0B 0C 0D 0E 0F 10 │ "
    );
    assert_eq!(print_pretty(b"hi\n"), "hi.\n");
}

#[test]
fn raw_column_shows_only_sixteen_bytes() {
    let data: Vec<u8> = (1u8..=20).collect();
    assert_eq!(print_raw(&data), "01 02 03 04 05 06 07 08  09 0A 0B 0C 0D 0E 0F 10 │ ");
    assert_eq!(print_raw(&[]), " ".repeat(49) + "│ ");
}
