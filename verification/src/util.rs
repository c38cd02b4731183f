//! Sanctions and the words for them.

use vstd::prelude::*;
use vstd::string::StringExecFns;
use crate::text::{decimal, push_decimal, push_signed_decimal, signed_decimal};

verus! {

/// What a member is sanctioned with. Points in time are whole seconds since
/// the Unix epoch.
#[derive(Clone, Copy, Debug, PartialEq, Eq, Structural)]
pub enum Penalty {
    /// No messages until the given time.
    Timeout(i64),
    /// A ban until the given time, or for good.
    Ban(Option<i64>),
}

/// The penalty in words. A point in time is written in the platform's
/// markup for a relative time.
pub open spec fn penalty_text(penalty: Penalty) -> Seq<char> {
    match penalty {
        Penalty::Timeout(until) => "a "@ + "timeout until <t:"@ + signed_decimal(until as int) + ":R>"@,
        Penalty::Ban(Some(until)) => "a "@ + "ban until <t:"@ + signed_decimal(until as int) + ":R>"@,
        Penalty::Ban(None) => "a "@ + "permanent ban"@,
    }
}

/// The penalty in words, such as `a timeout until <t:1543392060:R>` or
/// `a permanent ban`.
pub fn gen_penalty_string(penalty: Penalty) -> (text: String)
    ensures
        text@ == penalty_text(penalty),
{
    let mut text = String::new();
    text.append("a ");
    match penalty {
        Penalty::Timeout(until) => {
            text.append("timeout until <t:");
            push_signed_decimal(&mut text, until);
            text.append(":R>");
        },
        Penalty::Ban(Some(until)) => {
            text.append("ban until <t:");
            push_signed_decimal(&mut text, until);
            text.append(":R>");
        },
        Penalty::Ban(None) => {
            text.append("permanent ban");
        },
    }
    assert(text@ =~= penalty_text(penalty));
    text
}

/// The body of the notice that tells a user about a sanction.
pub open spec fn sanction_text(username: Seq<char>, reason: Seq<char>, penalty: Penalty) -> Seq<char> {
    "Hey "@ + username + ",\n\n                I'm sorry to tell you, but you've been sanctioned for "@ + reason
        + ".\n                Your penalty is "@ + penalty_text(penalty) + "\n            "@
}

/// The body of the notice that tells a user about a sanction.
pub fn sanction_description(username: &str, reason: &str, penalty: Penalty) -> (text: String)
    ensures
        text@ == sanction_text(username@, reason@, penalty),
{
    let mut text = "Hey ".to_owned();
    text.append(username);
    text.append(",\n\n                I'm sorry to tell you, but you've been sanctioned for ");
    text.append(reason);
    text.append(".\n                Your penalty is ");
    let words = gen_penalty_string(penalty);
    text.append(words.as_str());
    text.append("\n            ");
    text
}

/// The format of a sticker attached to a message.
#[derive(Clone, Copy, Debug, PartialEq, Eq, Structural)]
pub enum StickerFormat {
    Png,
    Apng,
    Lottie,
    Unknown,
}

/// How many of the stickers are in the format of the platform's own
/// default stickers.
pub open spec fn default_stickers(stickers: Seq<StickerFormat>) -> nat
    decreases stickers.len(),
{
    if stickers.len() == 0 {
        0
    } else {
        default_stickers(stickers.drop_last()) + if stickers.last() is Lottie {
            1nat
        } else {
            0nat
        }
    }
}

/// How often the author of a message is sanctioned for it: once for every
/// default sticker, unless the message is private.
pub fn sticker_sanctions(private: bool, stickers: &Vec<StickerFormat>) -> (count: usize)
    ensures
        count == (if private {
            0
        } else {
            default_stickers(stickers@)
        }),
{
    if private {
        return 0;
    }
    let n = stickers.len();
    let mut count: usize = 0;
    let mut i: usize = 0;
    while i < n
        invariant
            n == stickers@.len(),
            i <= n,
            count <= i,
            count == default_stickers(stickers@.subrange(0, i as int)),
        decreases n - i,
    {
        assert(stickers@.subrange(0, i + 1).drop_last() =~= stickers@.subrange(0, i as int));
        match stickers[i] {
            StickerFormat::Lottie => {
                count += 1;
            },
            _ => {},
        }
        i += 1;
    }
    assert(stickers@.subrange(0, n as int) =~= stickers@);
    count
}

/// The sanction for a default sticker sent at `now`: a timeout of one
/// minute. `None` if no timestamp can hold the end of the timeout.
pub fn sticker_penalty(now: i64) -> (r: Option<Penalty>)
    ensures
        r == (if now + 60 <= i64::MAX {
            Some(Penalty::Timeout((now + 60) as i64))
        } else {
            None
        }),
{
    match now.checked_add(60) {
        Some(until) => Some(Penalty::Timeout(until)),
        None => None,
    }
}

/// What the moderator is told after a user was banned.
pub open spec fn ban_text(user: u64, reason: Option<Seq<char>>) -> Seq<char> {
    match reason {
        Some(why) => "User `"@ + decimal(user as nat) + "` got banned for reason `"@ + why + "`"@,
        None => "User `"@ + decimal(user as nat) + "` got banned"@,
    }
}

/// What the moderator is told after a user was banned, with or without a
/// reason.
pub fn ban_reply(user: u64, reason: Option<&str>) -> (text: String)
    ensures
        text@ == ban_text(
            user,
            match reason {
                Some(why) => Some(why@),
                None => None,
            },
        ),
{
    let mut text = "User `".to_owned();
    push_decimal(&mut text, user);
    match reason {
        Some(why) => {
            text.append("` got banned for reason `");
            text.append(why);
            text.append("`");
        },
        None => {
            text.append("` got banned");
        },
    }
    text
}

} // verus!
