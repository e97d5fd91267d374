use termail::utils::get_pin_yin;

#[test]
fn test_pin_yin() {
    assert_eq!(get_pin_yin("陈一发儿"), "chenyifaer".to_string());
    assert_eq!(get_pin_yin("Gala乐队"), "GALAledui".to_string());
    assert_eq!(get_pin_yin("乐队Gala乐队"), "leduiGALAledui".to_string());
    assert_eq!(get_pin_yin("Annett Louisan"), "ANNETT LOUISAN".to_string());
}

#[test]
fn pin_yin_empty_input_stays_empty() {
    assert_eq!(get_pin_yin(""), String::new());
}

#[test]
fn pin_yin_ascii_is_uppercased() {
    assert_eq!(get_pin_yin("mail box 7"), "MAIL BOX 7".to_string());
}
