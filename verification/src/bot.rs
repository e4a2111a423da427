//! The companion bot's command table: a fixed mapping from text commands
//! to static replies, some carrying a launch button. Delivering the reply
//! over the messaging network is the host process's job.

use vstd::prelude::*;
use vstd::string::StringExecFns;
use crate::text::str_eq;
use crate::text::str_starts_with;

verus! {

/// A single launch button under a reply.
#[derive(Debug, Clone, PartialEq)]
pub struct Button {
    pub label: String,
    pub url: String,
}

/// One reply the bot sends for a recognized command.
#[derive(Debug, Clone, PartialEq)]
pub struct BotReply {
    pub text: String,
    pub button: Option<Button>,
}

/// The view of a button.
pub struct ButtonV {
    pub label: Seq<char>,
    pub url: Seq<char>,
}

/// The view of a reply.
pub struct BotReplyV {
    pub text: Seq<char>,
    pub button: Option<ButtonV>,
}

impl View for Button {
    type V = ButtonV;

    open spec fn view(&self) -> ButtonV {
        ButtonV { label: self.label@, url: self.url@ }
    }
}

impl View for BotReply {
    type V = BotReplyV;

    open spec fn view(&self) -> BotReplyV {
        BotReplyV {
            text: self.text@,
            button: match self.button {
                Some(b) => Some(b@),
                None => None,
            },
        }
    }
}

/// The view of an optional reply.
pub open spec fn reply_view(r: Option<BotReply>) -> Option<BotReplyV> {
    match r {
        Some(x) => Some(x@),
        None => None,
    }
}

/// Whether `s` begins with `p`.
pub open spec fn spec_starts_with(s: Seq<char>, p: Seq<char>) -> bool {
    p.len() <= s.len() && s.subrange(0, p.len() as int) == p
}

/// The reply owed for one incoming text, if the text is a recognized
/// command; any other text draws no reply. Commands with a prefix rule
/// answer every text that begins with them, exactly as received.
pub open spec fn bot_reply_spec(text: Seq<char>) -> Option<BotReplyV> {
    if text == "/start"@ {
        Some(
            BotReplyV {
                text: "Yoo, wassap! It's Yaps World on yaps.gg. We build things. Try /help."@,
                button: None,
            },
        )
    } else if spec_starts_with(text, "/chat"@) {
        Some(
            BotReplyV {
                text: "Click to start one-time end-to-end encrypted anonymous chats."@,
                button: Some(
                    ButtonV {
                        label: "\u{1F440} Start Yapping!"@,
                        url: "https://t.me/yapsworld_bot/chat"@,
                    },
                ),
            },
        )
    } else if spec_starts_with(text, "/link"@) {
        Some(
            BotReplyV {
                text: "Click to shorten your long links blazingly fast."@,
                button: Some(
                    ButtonV {
                        label: "\u{1F440} Start Shortening!"@,
                        url: "https://t.me/yapsworld_bot/link"@,
                    },
                ),
            },
        )
    } else if spec_starts_with(text, "/loom"@) {
        Some(
            BotReplyV {
                text:
                    "Not a Loom Pro subscriber? Click to download videos from Loom for free."@,
                button: Some(
                    ButtonV {
                        label: "\u{1F440} Start Downloading!"@,
                        url: "https://t.me/yapsworld_bot/loom"@,
                    },
                ),
            },
        )
    } else if text == "/help"@ {
        Some(
            BotReplyV {
                text:
                    "try yaps.gg to learn more.\n\nAvailable commands:\n/start - yoo, wassap!\n/chat - Launch \"yaps.chat - one-time end-to-end encrypted anonymous chats\" on Telegram\n/link - Launch \"notl.ink - free open source blazingly fast url shortener ever\" on Telegram\n/loom - Launch \"yaps.lol - free open source loom video downloader\" on Telegram\n/help - try me if you're lost;)\n/enterprise - let's yapp on business"@,
                button: None,
            },
        )
    } else if text == "/enterprise"@ {
        Some(
            BotReplyV {
                text: "Kindly contact me via abdibrokhim@gmail.com."@,
                button: None,
            },
        )
    } else {
        None
    }
}

/// The bot's reply for one incoming text, per the command table.
pub fn bot_reply(text: &str) -> (r: Option<BotReply>)
    ensures
        reply_view(r) == bot_reply_spec(text@),
{
    if str_eq(text, "/start") {
        Some(
            BotReply {
                text: String::from_str(
                    "Yoo, wassap! It's Yaps World on yaps.gg. We build things. Try /help.",
                ),
                button: None,
            },
        )
    } else if str_starts_with(text, "/chat") {
        Some(
            BotReply {
                text: String::from_str(
                    "Click to start one-time end-to-end encrypted anonymous chats.",
                ),
                button: Some(
                    Button {
                        label: String::from_str("\u{1F440} Start Yapping!"),
                        url: String::from_str("https://t.me/yapsworld_bot/chat"),
                    },
                ),
            },
        )
    } else if str_starts_with(text, "/link") {
        Some(
            BotReply {
                text: String::from_str("Click to shorten your long links blazingly fast."),
                button: Some(
                    Button {
                        label: String::from_str("\u{1F440} Start Shortening!"),
                        url: String::from_str("https://t.me/yapsworld_bot/link"),
                    },
                ),
            },
        )
    } else if str_starts_with(text, "/loom") {
        Some(
            BotReply {
                text: String::from_str(
                    "Not a Loom Pro subscriber? Click to download videos from Loom for free.",
                ),
                button: Some(
                    Button {
                        label: String::from_str("\u{1F440} Start Downloading!"),
                        url: String::from_str("https://t.me/yapsworld_bot/loom"),
                    },
                ),
            },
        )
    } else if str_eq(text, "/help") {
        Some(
            BotReply {
                text: String::from_str(
                    "try yaps.gg to learn more.\n\nAvailable commands:\n/start - yoo, wassap!\n/chat - Launch \"yaps.chat - one-time end-to-end encrypted anonymous chats\" on Telegram\n/link - Launch \"notl.ink - free open source blazingly fast url shortener ever\" on Telegram\n/loom - Launch \"yaps.lol - free open source loom video downloader\" on Telegram\n/help - try me if you're lost;)\n/enterprise - let's yapp on business",
                ),
                button: None,
            },
        )
    } else if str_eq(text, "/enterprise") {
        Some(
            BotReply {
                text: String::from_str("Kindly contact me via abdibrokhim@gmail.com."),
                button: None,
            },
        )
    } else {
        None
    }
}

} // verus!
