use dashboard::models::AccountCategory;
use dashboard::ui::{
    account_mark, cash_list_row, category_hue, chf_amount_text, edit_title, group_thousands,
    has_summary_card, masked, modal_rect, modal_text_width, notification_text, price_mark,
    side_by_side, symbol_hue, too_small, wrapped_row_count, Hue, PrivacyMode,
};

#[test]
fn test_wrapped_row_count() {
    assert_eq!(wrapped_row_count("", 10), 1);
    assert_eq!(wrapped_row_count("hello world", 11), 1);
    assert_eq!(wrapped_row_count("hello world", 10), 2);
    assert_eq!(wrapped_row_count("aaaaaa bbbbbb cccccc", 10), 3);
    assert_eq!(wrapped_row_count("aaaaaaaaaaaaaaaaaaaaaa", 10), 3);
}

#[test]
fn wrapping_at_width_zero_and_long_words_after_text() {
    assert_eq!(wrapped_row_count("anything at all", 0), 1);
    assert_eq!(wrapped_row_count("ab cdefghijklmnop", 5), 4);
    assert_eq!(wrapped_row_count("a  b", 3), 2);
}

#[test]
fn test_format_chf() {
    assert_eq!(chf_amount_text(false, 0, 0), "0.00");
    assert_eq!(chf_amount_text(false, 0, 36), "0.36");
    assert_eq!(chf_amount_text(false, 12, 81), "12.81");
    assert_eq!(chf_amount_text(false, 2370, 34), "2'370.34");
    assert_eq!(chf_amount_text(false, 45655, 52), "45'655.52");
    assert_eq!(chf_amount_text(true, 1500, 25), "-1'500.25");
}

#[test]
fn centimes_wrap_at_a_hundred_and_digits_group_by_three() {
    assert_eq!(chf_amount_text(false, 9, 100), "9.00");
    assert_eq!(chf_amount_text(false, 1234567, 5), "1'234'567.05");
    assert_eq!(group_thousands("12500"), "12'500");
    assert_eq!(group_thousands("123"), "123");
    assert_eq!(group_thousands(""), "");
    assert_eq!(group_thousands("1000000").replace('\'', ""), "1000000");
}

#[test]
fn accounts_are_marked_by_source_and_state() {
    let m = account_mark("UH", false, false);
    assert_eq!((m.label.as_str(), m.hue, m.bold), ("UH*", Hue::LightCyan, true));
    let m = account_mark("FP", false, true);
    assert_eq!((m.label.as_str(), m.hue), ("FP*", Hue::LightRed));
    let m = account_mark("IB", false, false);
    assert_eq!((m.label.as_str(), m.hue), ("IB", Hue::Yellow));
    let m = account_mark("Chase", true, true);
    assert_eq!((m.label.as_str(), m.hue, m.bold), ("Chase~", Hue::White, false));
}

#[test]
fn quotes_and_categories_have_colours() {
    assert_eq!(price_mark("DELISTED"), Hue::Yellow);
    assert_eq!(price_mark("FAILED"), Hue::Red);
    assert_eq!(price_mark("unloaded"), Hue::DarkGray);
    assert_eq!(price_mark("19.50"), Hue::Green);
    assert_eq!(symbol_hue(true), Hue::Magenta);
    assert_eq!(symbol_hue(false), Hue::Blue);
    assert_eq!(category_hue(AccountCategory::Cash), Hue::Cyan);
    assert_eq!(category_hue(AccountCategory::Retirement), Hue::Green);
}

#[test]
fn privacy_modes_hide_amounts_then_quantities() {
    assert!(!PrivacyMode::Normal.hides_amounts());
    assert!(PrivacyMode::HideAmounts.hides_amounts());
    assert!(!PrivacyMode::HideAmounts.hides_quantities());
    assert!(PrivacyMode::HideAll.hides_amounts());
    assert!(PrivacyMode::HideAll.hides_quantities());
    assert_eq!(masked("250.00".to_string(), true), "******");
    assert_eq!(masked("250.00".to_string(), false), "250.00");
}

#[test]
fn layout_thresholds() {
    assert!(too_small(31, 40));
    assert!(too_small(120, 7));
    assert!(!too_small(32, 8));
    assert!(side_by_side(80));
    assert!(!side_by_side(79));
    assert!(has_summary_card(13));
    assert!(!has_summary_card(12));
}

#[test]
fn notifications_are_cut_to_the_room_beside_the_title() {
    assert_eq!(notification_text("Saved Chase", 120), Some("Saved Chase".to_string()));
    assert_eq!(notification_text("Saved Chase", 35), Some("Saved".to_string()));
    assert_eq!(notification_text("Saved Chase", 30), None);
    assert_eq!(notification_text("", 120), None);
}

#[test]
fn the_dialog_is_centred_and_sized_for_its_rows() {
    let r = modal_rect(120, 40, 8);
    assert_eq!((r.x, r.y, r.width, r.height), (24, 15, 72, 10));
    let r = modal_rect(40, 30, 100);
    assert_eq!((r.width, r.height), (36, 28));
    assert_eq!(modal_text_width(120), 70);
    assert_eq!(modal_text_width(40), 34);
    assert_eq!(modal_text_width(4), 1);
}

#[test]
fn cash_rows_are_padded() {
    let r = cash_list_row("Chase", "1'234.50 GBP", true);
    assert_eq!(r.marker, " ▶ ");
    assert_eq!(r.name, format!("{:<24}", "Chase"));
    assert_eq!(r.amount, format!("{:>18}", "1'234.50 GBP"));
    let r = cash_list_row("A name longer than twenty-four", "******", false);
    assert_eq!(r.marker, "   ");
    assert_eq!(r.name, "A name longer than twenty-four");
    assert_eq!(r.amount, format!("{:>18}", "******"));
}

#[test]
fn edit_titles_name_the_selected_field() {
    let names = vec!["Chase".to_string()];
    assert_eq!(edit_title(&names, 0), " Edit: Chase ");
    assert_eq!(edit_title(&names, 3), " Edit: ? ");
}
