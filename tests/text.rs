use papo::avatar_cache::AvatarCache;
use papo::contact::Contact;
use papo::media::MediaType;
use papo::utils::{extract_phone_from_jid, format_lid_as_number, get_first_name};

#[test]
fn first_name_of_a_full_name_is_its_initial() {
    assert_eq!(get_first_name("John Smith"), "J");
    assert_eq!(get_first_name("Ana Maria Souza"), "A");
}

#[test]
fn first_name_of_a_single_word_is_the_word() {
    assert_eq!(get_first_name("Maria"), "Maria");
    assert_eq!(get_first_name(""), "");
}

#[test]
fn phone_is_the_user_part_of_the_jid() {
    assert_eq!(extract_phone_from_jid("5511999999999@s.whatsapp.net"), "+5511999999999");
    assert_eq!(extract_phone_from_jid("12345"), "+12345");
    assert_eq!(extract_phone_from_jid("1@2@3"), "+1");
    assert_eq!(extract_phone_from_jid(""), "+");
}

#[test]
fn lid_is_formatted_as_an_international_number() {
    let formatted = format_lid_as_number("5511999999999@s.whatsapp.net");
    assert_ne!(formatted, "+5511999999999");
    assert!(formatted.starts_with("+55 11"));
    assert!(formatted.contains(' '));
}

#[test]
fn unparsable_lid_falls_back_to_the_user_part() {
    assert_eq!(format_lid_as_number("abc@lid"), "+abc");
}

#[test]
fn mime_types_are_guessed_per_kind() {
    assert_eq!(MediaType::Audio.guess_mime_type(), "audio/ogg");
    assert_eq!(MediaType::Image.guess_mime_type(), "image/jpeg");
    assert_eq!(MediaType::Video.guess_mime_type(), "video/mp4");
    assert_eq!(MediaType::Sticker.guess_mime_type(), "image/webp");
    assert_eq!(MediaType::Document.guess_mime_type(), "application/pdf");
}

#[test]
fn labels_open_with_the_kind_symbol() {
    assert_eq!(MediaType::Audio.labelled("Voice message"), "\u{1F3A4} Voice message");
    assert_eq!(MediaType::Document.labelled("Dokument"), "\u{1F4C4} Dokument");
    assert!(MediaType::Image.display_label().starts_with("\u{1F4F7} "));
    assert!(MediaType::Sticker.display_label().len() > "\u{1F3AD} ".len());
    assert_eq!(MediaType::Video.caption(), "Video");
}

#[test]
fn media_kind_is_read_from_its_name_in_any_case() {
    assert_eq!(MediaType::from_name("AUDIO"), MediaType::Audio);
    assert_eq!(MediaType::from_name("Video"), MediaType::Video);
    assert_eq!(MediaType::from_name("sticker"), MediaType::Sticker);
    assert_eq!(MediaType::from_name("DocuMent"), MediaType::Document);
    assert_eq!(MediaType::from_name("gif"), MediaType::Image);
    assert_eq!(MediaType::from_lowercase("AUDIO"), MediaType::Image);
    assert_eq!(MediaType::default(), MediaType::Image);
}

#[test]
fn avatar_path_sanitizes_the_jid() {
    let cache = AvatarCache::in_dir("/data/avatars".to_string());
    assert_eq!(
        cache.get_avatar_path("123:4@s.whatsapp.net"),
        "/data/avatars/123_4@s.whatsapp.net.jpg"
    );
    assert_eq!(cache.get_avatar_path("a/b\\c*d?e\"f<g>h|i"), "/data/avatars/a_b_c_d_e_f_g_h_i.jpg");
    let cache = AvatarCache::in_dir("/data/".to_string());
    assert_eq!(cache.get_avatar_path("x"), "/data/x.jpg");
    let cache = AvatarCache::in_dir(String::new());
    assert_eq!(cache.get_avatar_path("x"), "x.jpg");
}

#[test]
fn contact_record_keeps_its_fields() {
    let c = Contact {
        jid: "1@s.whatsapp.net".to_string(),
        name: Some("Ana".to_string()),
        push_name: None,
        phone_number: Some("+1".to_string()),
        is_registered: true,
    };
    let d = c.clone();
    assert_eq!(d.jid, "1@s.whatsapp.net");
    assert_eq!(d.name.as_deref(), Some("Ana"));
    assert!(d.is_registered);
}

use papo::labels::{date_label, dated_text, format_date_label, DateLabel};
use papo::rows::CalendarDate;

fn day(year: i32, month: u32, day: u32) -> CalendarDate {
    CalendarDate { year, month, day }
}

#[test]
fn separator_dates_read_relative_to_today() {
    assert_eq!(date_label(day(2024, 5, 10), day(2024, 5, 10)), DateLabel::Today);
    assert_eq!(date_label(day(2024, 5, 9), day(2024, 5, 10)), DateLabel::Yesterday);
    assert_eq!(date_label(day(2024, 4, 30), day(2024, 5, 1)), DateLabel::Yesterday);
    assert_eq!(date_label(day(2023, 12, 31), day(2024, 1, 1)), DateLabel::Yesterday);
    assert_eq!(date_label(day(2024, 2, 29), day(2024, 3, 1)), DateLabel::Yesterday);
    assert_eq!(date_label(day(2024, 1, 1), day(2024, 5, 10)), DateLabel::ThisYear);
    assert_eq!(date_label(day(2024, 5, 11), day(2024, 5, 10)), DateLabel::ThisYear);
    assert_eq!(date_label(day(2023, 5, 9), day(2024, 5, 10)), DateLabel::OtherYear);
}

#[test]
fn dated_labels_spell_the_month() {
    assert_eq!(dated_text(day(2024, 2, 23), DateLabel::ThisYear), "February 23");
    assert_eq!(dated_text(day(2024, 2, 3), DateLabel::OtherYear), "February 3, 2024");
    assert_eq!(dated_text(day(2023, 2, 30), DateLabel::ThisYear), "");
    assert_eq!(format_date_label(day(2001, 2, 23)), "February 23, 2001");
    assert!(!format_date_label(day(2001, 2, 23)).is_empty());
}

use papo::labels::date_label_text;

#[test]
fn first_name_of_a_name_opening_with_a_space_is_empty() {
    assert_eq!(get_first_name(" Bob"), "");
    assert_eq!(get_first_name(" "), "");
}

#[test]
fn separator_label_uses_the_given_words() {
    assert_eq!(date_label_text(day(2024, 5, 10), day(2024, 5, 10), "Hoje", "Ontem"), "Hoje");
    assert_eq!(date_label_text(day(2024, 2, 29), day(2024, 3, 1), "Hoje", "Ontem"), "Ontem");
    assert_eq!(date_label_text(day(2024, 2, 23), day(2024, 3, 1), "Hoje", "Ontem"), "February 23");
    assert_eq!(
        date_label_text(day(2023, 12, 5), day(2024, 3, 1), "Hoje", "Ontem"),
        "December 5, 2023"
    );
}
