//! Channel data types and their pure conversions.
//!
//! These are the messaging-platform records the connectors exchange; the
//! network transport around them lives outside the verified library. The
//! conversions to the engine's own incoming-message record are pure and
//! take the clock reading as an argument.

use vstd::prelude::*;

verus! {

/// Default flag for optional channel toggles.
pub fn default_true() -> (r: bool)
    ensures
        r,
{
    true
}

/// Default long-poll interval in seconds.
pub fn default_poll_interval() -> (r: u64)
    ensures
        r == 1,
{
    1
}

/// Discord channel configuration.
pub struct DiscordConfig {
    /// Bot token.
    pub bot_token: Vec<u8>,
    /// Whether the channel is active.
    pub enabled: bool,
}

/// A Discord user record.
pub struct DiscordUser {
    /// User id.
    pub id: Vec<u8>,
    /// User name.
    pub username: Vec<u8>,
    /// Legacy discriminator.
    pub discriminator: Vec<u8>,
    /// Whether the user is a bot.
    pub bot: Option<bool>,
}

/// A Discord message record.
pub struct DiscordMessage {
    /// Message id.
    pub id: Vec<u8>,
    /// Channel the message was posted in.
    pub channel_id: Vec<u8>,
    /// Author of the message.
    pub author: DiscordUser,
    /// Message text.
    pub content: Vec<u8>,
    /// Guild the channel belongs to, absent in direct messages.
    pub guild_id: Option<Vec<u8>>,
}

/// Telegram channel configuration.
pub struct TelegramConfig {
    /// Bot token.
    pub bot_token: Vec<u8>,
    /// Whether the channel is active.
    pub enabled: bool,
    /// Long-poll interval in seconds.
    pub poll_interval: u64,
}

/// A Telegram API response envelope.
pub struct TelegramResponse<T> {
    /// Whether the call succeeded.
    pub ok: bool,
    /// The payload on success.
    pub result: Option<T>,
    /// The error description on failure.
    pub description: Option<Vec<u8>>,
}

/// A Telegram update record.
pub struct TelegramUpdate {
    /// Update sequence number.
    pub update_id: i64,
    /// The message carried by the update, if any.
    pub message: Option<TelegramMessage>,
}

/// A Telegram message record.
pub struct TelegramMessage {
    /// Message id.
    pub message_id: i64,
    /// Sender, absent for channel posts.
    pub from: Option<TelegramUser>,
    /// Chat the message was posted in.
    pub chat: TelegramChat,
    /// Message text, if any.
    pub text: Option<Vec<u8>>,
    /// Unix timestamp of the message.
    pub date: i64,
}

/// A Telegram user record.
pub struct TelegramUser {
    /// User id.
    pub id: i64,
    /// Whether the user is a bot.
    pub is_bot: bool,
    /// First name.
    pub first_name: Vec<u8>,
    /// Last name, if set.
    pub last_name: Option<Vec<u8>>,
    /// User name, if set.
    pub username: Option<Vec<u8>>,
}

/// A Telegram chat record.
pub struct TelegramChat {
    /// Chat id.
    pub id: i64,
    /// Chat kind, as the platform names it.
    pub chat_type: Vec<u8>,
    /// Chat title, if any.
    pub title: Option<Vec<u8>>,
}

/// Whether an incoming message came from a direct or a group conversation.
#[derive(Clone, Copy, Debug, PartialEq, Eq, Structural)]
pub enum ThreadKind {
    /// A one-on-one conversation.
    Direct,
    /// A group conversation.
    Group,
}

/// The engine's own incoming-message record, built from a platform record
/// and the caller's clock reading.
pub struct IncomingMessage {
    /// Which platform the message came from.
    pub channel: Vec<u8>,
    /// Conversation id, in decimal for numeric platforms.
    pub thread_id: Vec<u8>,
    /// Sender id, in decimal for numeric platforms.
    pub sender_id: Vec<u8>,
    /// Sender display name, if known.
    pub sender_name: Option<Vec<u8>>,
    /// Message text.
    pub content: Vec<u8>,
    /// Conversation kind.
    pub thread_type: ThreadKind,
    /// Caller-supplied timestamp in unix milliseconds.
    pub timestamp: i64,
    /// Message replied to, if any.
    pub reply_to: Option<Vec<u8>>,
}

/// Decimal digits of a nonnegative number.
pub open spec fn spec_dec_nat(n: int) -> Seq<u8>
    decreases n,
{
    if n < 10 {
        seq![(48 + if n >= 0 { n } else { 0 }) as u8]
    } else {
        spec_dec_nat(n / 10).push((48 + n % 10) as u8)
    }
}

/// Decimal form of a signed number: a minus sign then the digits.
pub open spec fn spec_dec_i64(v: int) -> Seq<u8> {
    if v < 0 {
        seq![45u8] + spec_dec_nat(-v)
    } else {
        spec_dec_nat(v)
    }
}

/// Decimal digits of an unsigned number.
pub fn dec_u64(n: u64) -> (r: Vec<u8>)
    ensures
        r@ == spec_dec_nat(n as int),
    decreases n,
{
    if n < 10 {
        let mut out: Vec<u8> = Vec::new();
        out.push(48 + n as u8);
        proof {
            assert(out@ =~= spec_dec_nat(n as int));
        }
        out
    } else {
        let mut out = dec_u64(n / 10);
        out.push(48 + (n % 10) as u8);
        out
    }
}

/// Decimal form of a signed number.
pub fn dec_i64(v: i64) -> (r: Vec<u8>)
    ensures
        r@ == spec_dec_i64(v as int),
{
    if v >= 0 {
        dec_u64(v as u64)
    } else {
        let mag: u64 = ((-(v + 1)) as u64) + 1;
        proof {
            assert(mag as int == -(v as int));
        }
        let digits = dec_u64(mag);
        let mut out: Vec<u8> = Vec::new();
        out.push(45);
        let mut i: usize = 0;
        while i < digits.len()
            invariant
                i <= digits@.len(),
                out@ == seq![45u8] + digits@.take(i as int),
            decreases digits@.len() - i,
        {
            proof {
                assert((seq![45u8] + digits@.take(i as int)).push(digits@[i as int])
                    =~= seq![45u8] + digits@.take(i as int + 1));
            }
            out.push(digits[i]);
            i += 1;
        }
        proof {
            assert(digits@.take(digits@.len() as int) =~= digits@);
        }
        out
    }
}

/// Parse a canonical decimal byte string (an optional minus sign, then
/// digits without a leading zero) back to the number that prints as it:
/// the inverse of the decimal printer, used to validate a conversation id
/// before a send. Anything else parses to nothing.
pub fn parse_decimal(s: &Vec<u8>) -> (r: Option<i64>)
    ensures
        r matches Some(v) ==> s@ == spec_dec_i64(v as int),
{
    let n = s.len();
    if n == 0 {
        return None;
    }
    let neg = s[0] == 45;
    let start: usize = if neg { 1 } else { 0 };
    if start >= n {
        return None;
    }
    // Canonical form: a single zero, or a nonzero leading digit.
    if s[start] == 48 {
        if neg || n != 1 {
            return None;
        }
        proof {
            assert(s@ =~= seq![48u8]);
            assert(spec_dec_i64(0) =~= seq![48u8]);
        }
        return Some(0);
    }
    let mut acc: i64 = 0;
    let mut i: usize = start;
    while i < n
        invariant
            start <= i <= n,
            n == s@.len(),
            start < n,
            start <= 1,
            s@[start as int] != 48,
            0 <= acc,
            acc <= 0x7fff_ffff_ffff_fffe,
            i > start ==> (acc >= 1 && s@.subrange(start as int, i as int)
                == spec_dec_nat(acc as int)),
            i == start ==> acc == 0,
        decreases n - i,
    {
        let c = s[i];
        if c < 48 || c > 57 {
            return None;
        }
        let d: i64 = (c - 48) as i64;
        if acc > (0x7fff_ffff_ffff_fffei64 - d) / 10 {
            return None;
        }
        let ghost pre = acc as int;
        let na = acc * 10 + d;
        proof {
            if i > start {
                assert(na as int >= 10);
                vstd::arithmetic::div_mod::lemma_fundamental_div_mod(na as int, 10);
                vstd::arithmetic::div_mod::lemma_mod_bound(na as int, 10);
                assert(na as int / 10 == pre && na as int % 10 == d as int)
                    by (nonlinear_arith)
                    requires
                        na as int == 10 * pre + d as int,
                        0 <= d as int,
                        (d as int) < 10,
                        na as int == 10 * (na as int / 10) + na as int % 10,
                        0 <= na as int % 10,
                        (na as int % 10) < 10;
                assert(spec_dec_nat(na as int)
                    == spec_dec_nat(pre).push((48 + d as int) as u8));
                assert(s@.subrange(start as int, i as int).push(s@[i as int])
                    =~= s@.subrange(start as int, i as int + 1));
            } else {
                assert(na as int == d as int);
                assert(1 <= na as int <= 9);
                assert(spec_dec_nat(na as int) =~= seq![(48 + d as int) as u8]);
                assert(s@.subrange(start as int, start as int + 1) =~= seq![s@[start as int]]);
            }
        }
        acc = na;
        i += 1;
    }
    proof {
        assert(s@.subrange(start as int, n as int) == spec_dec_nat(acc as int));
    }
    if neg {
        let v = -acc;
        proof {
            assert(s@ =~= seq![45u8] + s@.subrange(1, n as int));
            assert(spec_dec_i64(v as int) == seq![45u8] + spec_dec_nat(acc as int));
        }
        Some(v)
    } else {
        proof {
            assert(s@ =~= s@.subrange(0, n as int));
        }
        Some(acc)
    }
}

/// Copy a byte string.
fn copy_bytes(v: &Vec<u8>) -> (r: Vec<u8>)
    ensures
        r@ == v@,
{
    let mut out: Vec<u8> = Vec::new();
    let mut i: usize = 0;
    while i < v.len()
        invariant
            i <= v@.len(),
            out@ == v@.take(i as int),
        decreases v@.len() - i,
    {
        proof {
            assert(v@.take(i as int).push(v@[i as int]) =~= v@.take(i as int + 1));
        }
        out.push(v[i]);
        i += 1;
    }
    proof {
        assert(v@.take(v@.len() as int) =~= v@);
    }
    out
}

impl TelegramUpdate {
    /// Convert to the engine's incoming record, at the given clock
    /// reading. Present exactly when the update carries a message with
    /// text and a sender; private chats map to direct conversations,
    /// everything else to group ones.
    pub fn to_incoming(&self, now_millis: i64) -> (r: Option<IncomingMessage>)
        ensures
            r is Some <==> (self.message matches Some(msg) && msg.text is Some
                && msg.from is Some),
            r matches Some(im) ==> (self.message matches Some(msg)
                && im.content@ == msg.text.unwrap()@
                && im.channel@ == seq![116u8, 101u8, 108u8, 101u8, 103u8, 114u8, 97u8, 109u8]
                && (im.sender_name matches Some(n) && n@ == msg.from.unwrap().first_name@)
                && im.thread_type == (if msg.chat.chat_type@
                    == seq![112u8, 114u8, 105u8, 118u8, 97u8, 116u8, 101u8] {
                    ThreadKind::Direct
                } else {
                    ThreadKind::Group
                })
                && im.thread_id@ == spec_dec_i64(msg.chat.id as int)
                && im.sender_id@ == spec_dec_i64(msg.from.unwrap().id as int)
                && im.timestamp == now_millis
                && im.reply_to is None),
    {
        match &self.message {
            None => None,
            Some(msg) => {
                let text = match &msg.text {
                    None => {
                        return None;
                    },
                    Some(t) => copy_bytes(t),
                };
                let from = match &msg.from {
                    None => {
                        return None;
                    },
                    Some(f) => f,
                };
                let mut private_lit: Vec<u8> = Vec::new();
                private_lit.push(112);
                private_lit.push(114);
                private_lit.push(105);
                private_lit.push(118);
                private_lit.push(97);
                private_lit.push(116);
                private_lit.push(101);
                proof {
                    assert(private_lit@ =~= seq![112u8, 114u8, 105u8, 118u8, 97u8, 116u8, 101u8]);
                }
                let kind = if crate::tokenizer::bytes_eq(&msg.chat.chat_type, &private_lit) {
                    ThreadKind::Direct
                } else {
                    ThreadKind::Group
                };
                let mut channel: Vec<u8> = Vec::new();
                channel.push(116);
                channel.push(101);
                channel.push(108);
                channel.push(101);
                channel.push(103);
                channel.push(114);
                channel.push(97);
                channel.push(109);
                proof {
                    assert(channel@ =~= seq![116u8, 101u8, 108u8, 101u8, 103u8, 114u8, 97u8,
                        109u8]);
                }
                Some(IncomingMessage {
                    channel,
                    thread_id: dec_i64(msg.chat.id),
                    sender_id: dec_i64(from.id),
                    sender_name: Some(copy_bytes(&from.first_name)),
                    content: text,
                    thread_type: kind,
                    timestamp: now_millis,
                    reply_to: None,
                })
            },
        }
    }
}

impl DiscordMessage {
    /// Convert to the engine's incoming record, at the given clock
    /// reading; messages inside a guild map to group conversations,
    /// direct messages to direct ones.
    pub fn to_incoming(&self, now_millis: i64) -> (r: IncomingMessage)
        ensures
            r.content@ == self.content@,
            r.channel@ == seq![100u8, 105u8, 115u8, 99u8, 111u8, 114u8, 100u8],
            r.sender_name matches Some(n) && n@ == self.author.username@,
            r.thread_id@ == self.channel_id@,
            r.sender_id@ == self.author.id@,
            r.timestamp == now_millis,
            r.thread_type == (if self.guild_id is Some { ThreadKind::Group } else {
                ThreadKind::Direct
            }),
            r.reply_to is None,
    {
        let kind = match &self.guild_id {
            Some(_) => ThreadKind::Group,
            None => ThreadKind::Direct,
        };
        let mut channel: Vec<u8> = Vec::new();
        channel.push(100);
        channel.push(105);
        channel.push(115);
        channel.push(99);
        channel.push(111);
        channel.push(114);
        channel.push(100);
        proof {
            assert(channel@ =~= seq![100u8, 105u8, 115u8, 99u8, 111u8, 114u8, 100u8]);
        }
        IncomingMessage {
            channel,
            thread_id: copy_bytes(&self.channel_id),
            sender_id: copy_bytes(&self.author.id),
            sender_name: Some(copy_bytes(&self.author.username)),
            content: copy_bytes(&self.content),
            thread_type: kind,
            timestamp: now_millis,
            reply_to: None,
        }
    }
}

/// Advance the long-poll cursor: the last update's id, or the old cursor
/// when the batch is empty.
pub fn advance_update_cursor(last_update_id: i64, updates: &Vec<TelegramUpdate>) -> (r: i64)
    ensures
        updates@.len() == 0 ==> r == last_update_id,
        updates@.len() > 0 ==> r == updates@[updates@.len() - 1].update_id,
{
    if updates.len() == 0 {
        last_update_id
    } else {
        updates[updates.len() - 1].update_id
    }
}

} // verus!
