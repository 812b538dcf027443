use twitch_chat::color::{get_user_color, palette_color, set_user_color, ColorTable, PALETTE_LEN};

const PALETTE: [u32; 15] = [
    0xFF0000, 0x0000FF, 0x008000, 0xB22222, 0xFF7F50, 0x9ACD32, 0xFF4500, 0x2E8B57, 0xDAA520,
    0xD2691E, 0x5F9EA0, 0x1E90FF, 0xFF69B4, 0x8A2BE2, 0x00FF7F,
];

#[test]
fn user_colors() {
    // Set test seed
    fastrand::seed(12);

    let mut table = ColorTable::new();
    let user1 = "UserA".to_string();
    let user2 = "UserB".to_string();

    let color1 = get_user_color(&mut table, &user1);
    let color2 = get_user_color(&mut table, &user1);
    let color3 = get_user_color(&mut table, &user2);

    assert!(color1 == color2);
    assert!(color1 != color3);
}

#[test]
fn colors_come_from_palette_and_vary() {
    let mut table = ColorTable::new();
    let mut seen = Vec::new();
    for i in 0..300 {
        let name = format!("user{i}");
        let c = get_user_color(&mut table, &name);
        assert!(PALETTE.contains(&c));
        assert_eq!(get_user_color(&mut table, &name), c);
        if !seen.contains(&c) {
            seen.push(c);
        }
    }
    assert!(seen.len() > 1);
}

#[test]
fn set_overrides_color() {
    let mut table = ColorTable::new();
    let name = "Someone".to_string();
    assert_eq!(set_user_color(&mut table, &name, 0x123456), 0x123456);
    assert_eq!(get_user_color(&mut table, &name), 0x123456);
    assert_eq!(table.get(&name), Some(0x123456));
    set_user_color(&mut table, &name, 0xABCDEF);
    assert_eq!(get_user_color(&mut table, &name), 0xABCDEF);
    assert_eq!(table.get(&"Other".to_string()), None);
}

#[test]
fn palette_index_gives_its_color() {
    assert_eq!(PALETTE_LEN, 15);
    for (i, c) in PALETTE.iter().enumerate() {
        assert_eq!(palette_color(i), *c);
    }
}
