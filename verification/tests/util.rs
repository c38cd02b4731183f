use invite_tracker::util::{
    ban_reply, gen_penalty_string, sanction_description, sticker_penalty, sticker_sanctions, Penalty, StickerFormat,
};

#[test]
fn penalties_in_words() {
    assert_eq!(gen_penalty_string(Penalty::Timeout(1543392060)), "a timeout until <t:1543392060:R>");
    assert_eq!(gen_penalty_string(Penalty::Ban(Some(1543392060))), "a ban until <t:1543392060:R>");
    assert_eq!(gen_penalty_string(Penalty::Ban(None)), "a permanent ban");
    assert_eq!(gen_penalty_string(Penalty::Timeout(-5)), "a timeout until <t:-5:R>");
    assert_eq!(gen_penalty_string(Penalty::Timeout(0)), "a timeout until <t:0:R>");
}

#[test]
fn sanction_notice_names_user_reason_and_penalty() {
    assert_eq!(
        sanction_description("sam", "sending a default sticker", Penalty::Timeout(60)),
        "Hey sam,\n\n                I'm sorry to tell you, but you've been sanctioned for sending a default sticker.\n                Your penalty is a timeout until <t:60:R>\n            "
    );
}

#[test]
fn default_stickers_are_sanctioned_once_each_outside_private_messages() {
    let stickers = vec![StickerFormat::Png, StickerFormat::Lottie, StickerFormat::Apng, StickerFormat::Lottie];
    assert_eq!(sticker_sanctions(false, &stickers), 2);
    assert_eq!(sticker_sanctions(true, &stickers), 0);
    assert_eq!(sticker_sanctions(false, &vec![StickerFormat::Unknown]), 0);
    assert_eq!(sticker_sanctions(false, &Vec::new()), 0);
}

#[test]
fn sticker_penalty_is_a_timeout_of_one_minute() {
    assert_eq!(sticker_penalty(1_000), Some(Penalty::Timeout(1_060)));
    assert_eq!(sticker_penalty(i64::MAX - 60), Some(Penalty::Timeout(i64::MAX)));
    assert_eq!(sticker_penalty(i64::MAX - 59), None);
}

#[test]
fn ban_reply_names_user_and_reason() {
    assert_eq!(ban_reply(42, Some("spam")), "User `42` got banned for reason `spam`");
    assert_eq!(ban_reply(42, None), "User `42` got banned");
}
