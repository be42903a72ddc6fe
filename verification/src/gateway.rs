//! Decision core of the real-time chat gateway.
//!
//! The socket loop outside the library parses each frame into an event and
//! performs the replies; every decision — how the request counter moves,
//! which replies answer which event, the reply text with its fixed echo
//! marker, and the request-id labels — is made and pinned here. A
//! streaming chat is answered with the start/chunk/done protocol, one
//! indexed chunk per space-separated word of the reply text; a plain chat
//! with a single response. The reply text is the marked echo of the
//! request in both modes, a deliberate replacement of the upstream
//! placeholder reply texts.

use vstd::prelude::*;
use crate::channels::{spec_dec_nat, dec_u64};

verus! {

/// One parsed client frame.
pub enum WsEvent {
    /// A chat request with its text, streaming flag and provider label.
    Chat {
        /// Request text.
        content: Vec<u8>,
        /// Whether the reply should stream.
        stream: bool,
        /// Provider label.
        provider: Vec<u8>,
    },
    /// A liveness probe carrying the caller's clock reading.
    Ping {
        /// Unix milliseconds now.
        now_millis: i64,
    },
    /// A status query carrying the measured uptime.
    Status {
        /// Seconds since the gateway started.
        uptime_secs: u64,
    },
    /// A frame of an unrecognized kind.
    UnknownKind {
        /// The kind label received.
        kind: Vec<u8>,
    },
    /// A frame that did not parse.
    BadJson,
}

/// One reply the socket loop must send.
pub enum WsReply {
    /// Opens a streaming chat answer.
    ChatStart {
        /// Label of the request being answered.
        request_id: Vec<u8>,
        /// Provider label echoed back.
        provider: Vec<u8>,
    },
    /// One streamed piece of the answer.
    ChatChunk {
        /// Label of the request being answered.
        request_id: Vec<u8>,
        /// Piece of the reply text.
        content: Vec<u8>,
        /// Position of the piece in the stream.
        index: u64,
    },
    /// Closes a streaming chat answer.
    ChatDone {
        /// Label of the request being answered.
        request_id: Vec<u8>,
        /// How many pieces were streamed.
        total_tokens: u64,
        /// The whole reply text.
        full_content: Vec<u8>,
    },
    /// A plain chat answer.
    ChatResponse {
        /// Label of the request being answered.
        request_id: Vec<u8>,
        /// Provider label echoed back.
        provider: Vec<u8>,
        /// Reply text.
        content: Vec<u8>,
    },
    /// The probe answer, carrying the clock reading back.
    Pong {
        /// Unix milliseconds echoed.
        timestamp: i64,
    },
    /// The status answer.
    StatusReply {
        /// Requests handled so far.
        requests_processed: u64,
        /// Seconds since the gateway started.
        uptime_secs: u64,
    },
    /// An error report.
    ErrorReport,
}

/// Length of the leading run of non-space bytes.
pub open spec fn spec_take_word(s: Seq<u8>) -> int
    decreases s.len(),
{
    if s.len() == 0 || s[0] == 32 {
        0
    } else {
        1 + spec_take_word(s.drop_first())
    }
}

/// The space-separated words of a byte string, in order, empty runs
/// dropped.
pub open spec fn spec_words(s: Seq<u8>) -> Seq<Seq<u8>>
    decreases s.len(),
{
    if s.len() == 0 {
        Seq::empty()
    } else if s[0] == 32 {
        spec_words(s.drop_first())
    } else {
        let wl0 = spec_take_word(s);
        let wl = if wl0 < 1 {
            1
        } else if wl0 > s.len() {
            s.len() as int
        } else {
            wl0
        };
        seq![s.take(wl)] + spec_words(s.skip(wl))
    }
}

/// The leading word run is between one byte and the whole string.
proof fn lemma_take_word_bounds(s: Seq<u8>)
    requires
        s.len() > 0,
        s[0] != 32,
    ensures
        1 <= spec_take_word(s) <= s.len(),
    decreases s.len(),
{
    if s.len() == 1 {
        assert(s.drop_first().len() == 0);
        assert(spec_take_word(s.drop_first()) == 0);
    } else if s.drop_first()[0] == 32 {
        assert(spec_take_word(s.drop_first()) == 0);
    } else {
        lemma_take_word_bounds(s.drop_first());
    }
}

/// The label of request n: a fixed prefix then the decimal number.
pub open spec fn spec_request_id(n: int) -> Seq<u8> {
    seq![114u8, 101u8, 113u8, 95u8] + spec_dec_nat(n)
}

/// The reply to a chat: the fixed echo marker then the request text.
pub open spec fn spec_echo(content: Seq<u8>) -> Seq<u8> {
    seq![91u8, 103u8, 97u8, 116u8, 101u8, 119u8, 97u8, 121u8, 93u8, 32u8, 69u8, 99u8, 104u8,
        111u8, 58u8, 32u8] + content
}

/// The label of request n.
fn request_id(n: u64) -> (r: Vec<u8>)
    ensures
        r@ == spec_request_id(n as int),
{
    let mut out: Vec<u8> = Vec::new();
    out.push(114);
    out.push(101);
    out.push(113);
    out.push(95);
    let digits = dec_u64(n);
    let ghost prefix = out@;
    let mut i: usize = 0;
    while i < digits.len()
        invariant
            i <= digits@.len(),
            out@ == prefix + digits@.take(i as int),
        decreases digits@.len() - i,
    {
        proof {
            assert((prefix + digits@.take(i as int)).push(digits@[i as int])
                =~= prefix + digits@.take(i as int + 1));
        }
        out.push(digits[i]);
        i += 1;
    }
    proof {
        assert(digits@.take(digits@.len() as int) =~= digits@);
        assert(out@ =~= spec_request_id(n as int));
    }
    out
}

/// The echo reply text for a chat request.
fn echo_reply(content: &Vec<u8>) -> (r: Vec<u8>)
    ensures
        r@ == spec_echo(content@),
{
    let mut out: Vec<u8> = Vec::new();
    out.push(91);
    out.push(103);
    out.push(97);
    out.push(116);
    out.push(101);
    out.push(119);
    out.push(97);
    out.push(121);
    out.push(93);
    out.push(32);
    out.push(69);
    out.push(99);
    out.push(104);
    out.push(111);
    out.push(58);
    out.push(32);
    let ghost prefix = out@;
    let mut i: usize = 0;
    while i < content.len()
        invariant
            i <= content@.len(),
            out@ == prefix + content@.take(i as int),
        decreases content@.len() - i,
    {
        proof {
            assert((prefix + content@.take(i as int)).push(content@[i as int])
                =~= prefix + content@.take(i as int + 1));
        }
        out.push(content[i]);
        i += 1;
    }
    proof {
        assert(content@.take(content@.len() as int) =~= content@);
        assert(out@ =~= spec_echo(content@));
    }
    out
}

/// Copy a byte string.
fn copy_vec(v: &Vec<u8>) -> (r: Vec<u8>)
    ensures
        r@ == v@,
{
    let mut out: Vec<u8> = Vec::new();
    let mut i: usize = 0;
    while i < v.len()
        invariant
            i <= v@.len(),
            out@ == v@.take(i as int),
        decreases v@.len() - i,
    {
        proof {
            assert(v@.take(i as int).push(v@[i as int]) =~= v@.take(i as int + 1));
        }
        out.push(v[i]);
        i += 1;
    }
    proof {
        assert(v@.take(v@.len() as int) =~= v@);
    }
    out
}

/// Split a byte string into its space-separated words.
fn split_words(s: &Vec<u8>) -> (r: Vec<Vec<u8>>)
    ensures
        r@.len() == spec_words(s@).len(),
        forall|t: int| 0 <= t < r@.len() ==> (#[trigger] r@[t])@ == spec_words(s@)[t],
{
    let n = s.len();
    let mut out: Vec<Vec<u8>> = Vec::new();
    let mut i: usize = 0;
    proof {
        assert(s@.skip(0) =~= s@);
    }
    while i < n
        invariant
            i <= n,
            n == s@.len(),
            spec_words(s@).len() == out@.len() + spec_words(s@.skip(i as int)).len(),
            forall|t: int| 0 <= t < out@.len() ==> (#[trigger] out@[t])@ == spec_words(s@)[t],
            forall|t: int| 0 <= t < spec_words(s@.skip(i as int)).len()
                ==> #[trigger] spec_words(s@.skip(i as int))[t]
                    == spec_words(s@)[out@.len() + t],
        decreases n - i,
    {
        if s[i] == 32 {
            proof {
                assert(s@.skip(i as int)[0] == s@[i as int]);
                assert(s@.skip(i as int).drop_first() =~= s@.skip(i as int + 1));
            }
            i += 1;
        } else {
            let ghost rem = s@.skip(i as int);
            let ghost wl = spec_take_word(rem);
            proof {
                assert(rem[0] == s@[i as int]);
                lemma_take_word_bounds(rem);
            }
            // Find the end of the word.
            let mut j: usize = i;
            while j < n && s[j] != 32
                invariant
                    i <= j <= n,
                    n == s@.len(),
                    rem == s@.skip(i as int),
                    forall|t: int| i <= t < j ==> s@[t] != 32,
                decreases n - j,
            {
                j += 1;
            }
            proof {
                lemma_take_word_run(s@, i as int, j as int);
                assert(wl == j - i);
            }
            // Copy the word out.
            let mut w: Vec<u8> = Vec::new();
            let mut t: usize = i;
            while t < j
                invariant
                    i <= t <= j,
                    j <= n,
                    n == s@.len(),
                    w@ == s@.subrange(i as int, t as int),
                decreases j - t,
            {
                proof {
                    assert(s@.subrange(i as int, t as int).push(s@[t as int])
                        =~= s@.subrange(i as int, t as int + 1));
                }
                w.push(s[t]);
                t += 1;
            }
            proof {
                assert(rem.take(wl) =~= s@.subrange(i as int, j as int));
                assert(rem.skip(wl) =~= s@.skip(j as int));
                assert(spec_words(rem) == seq![rem.take(wl)] + spec_words(rem.skip(wl)));
                assert(spec_words(rem)[0] == rem.take(wl));
                assert(w@ == spec_words(rem)[0]);
                assert forall|q: int| 0 <= q < spec_words(s@.skip(j as int)).len() implies
                    #[trigger] spec_words(s@.skip(j as int))[q]
                        == spec_words(s@)[out@.len() + 1 + q] by {
                    assert(spec_words(rem)[1 + q] == spec_words(rem.skip(wl))[q]);
                }
            }
            out.push(w);
            i = j;
        }
    }
    proof {
        assert(s@.skip(n as int) =~= Seq::<u8>::empty());
    }
    out
}

/// A run of non-space bytes up to a space or the end is exactly the
/// leading word of the remainder.
proof fn lemma_take_word_run(s: Seq<u8>, i: int, j: int)
    requires
        0 <= i <= j <= s.len(),
        i < j,
        forall|t: int| i <= t < j ==> s[t] != 32,
        j < s.len() ==> s[j] == 32,
    ensures
        spec_take_word(s.skip(i)) == j - i,
    decreases j - i,
{
    let rem = s.skip(i);
    assert(s[i] != 32);
    assert(rem[0] == s[i]);
    assert(rem.drop_first() =~= s.skip(i + 1));
    if i + 1 == j {
        if j < s.len() {
            assert(s.skip(i + 1)[0] == s[j]);
            assert(spec_take_word(s.skip(i + 1)) == 0);
        } else {
            assert(s.skip(i + 1).len() == 0);
            assert(spec_take_word(s.skip(i + 1)) == 0);
        }
        assert(spec_take_word(rem) == 1 + spec_take_word(s.skip(i + 1)));
    } else {
        lemma_take_word_run(s, i + 1, j);
        assert(spec_take_word(rem) == 1 + spec_take_word(s.skip(i + 1)));
    }
}

/// Handle one event. The chat counter advances exactly on chat requests.
/// A plain chat is answered by one response carrying its request label,
/// the echoed provider and the marked echo of its text; a streaming chat
/// by the start record, one chunk per space-separated word of the reply
/// (the word plus a trailing space, indexed from zero), and the done
/// record carrying the word count and the full reply; a probe by its
/// timestamp; a status query by the counter; anything else by one error
/// report.
pub fn handle_ws_event(counter: u64, ev: WsEvent) -> (r: (u64, Vec<WsReply>))
    requires
        counter < 0xffff_ffff_ffff_ffff,
    ensures
        (ev matches WsEvent::Chat { .. }) ==> r.0 == counter + 1,
        !(ev matches WsEvent::Chat { .. }) ==> r.0 == counter,
        (ev matches WsEvent::Chat { content, stream, provider } ==> (if !stream {
            r.1@.len() == 1
            && (r.1@[0] matches WsReply::ChatResponse { request_id: rid, provider: p, content: c }
                && rid@ == spec_request_id(counter + 1) && p@ == provider@
                && c@ == spec_echo(content@))
        } else {
            r.1@.len() == 2 + spec_words(spec_echo(content@)).len()
            && (r.1@[0] matches WsReply::ChatStart { request_id: rid, provider: p }
                && rid@ == spec_request_id(counter + 1) && p@ == provider@)
            && (forall|t: int| 1 <= t <= spec_words(spec_echo(content@)).len()
                ==> (#[trigger] r.1@[t] matches WsReply::ChatChunk { request_id: rid, content: c, index }
                    && rid@ == spec_request_id(counter + 1)
                    && c@ == spec_words(spec_echo(content@))[t - 1] + seq![32u8]
                    && index as int == t - 1))
            && (r.1@[r.1@.len() - 1] matches WsReply::ChatDone { request_id: rid, total_tokens, full_content }
                && rid@ == spec_request_id(counter + 1)
                && total_tokens as int == spec_words(spec_echo(content@)).len()
                && full_content@ == spec_echo(content@))
        })),
        (ev matches WsEvent::Ping { now_millis } ==> (r.1@.len() == 1
            && (r.1@[0] matches WsReply::Pong { timestamp } && timestamp == now_millis))),
        (ev matches WsEvent::Status { uptime_secs } ==> (r.1@.len() == 1
            && (r.1@[0] matches WsReply::StatusReply { requests_processed, uptime_secs: u }
                && requests_processed == counter && u == uptime_secs))),
        (ev matches WsEvent::UnknownKind { .. } ==> (r.1@.len() == 1
            && r.1@[0] is ErrorReport)),
        (ev is BadJson ==> (r.1@.len() == 1 && r.1@[0] is ErrorReport)),
{
    let mut replies: Vec<WsReply> = Vec::new();
    match ev {
        WsEvent::Chat { content, stream, provider } => {
            let n = counter + 1;
            let text = echo_reply(&content);
            if !stream {
                replies.push(WsReply::ChatResponse {
                    request_id: request_id(n),
                    provider,
                    content: text,
                });
            } else {
                let ghost provider_view = provider@;
                replies.push(WsReply::ChatStart {
                    request_id: request_id(n),
                    provider,
                });
                let words = split_words(&text);
                let k = words.len();
                let ghost ws = spec_words(spec_echo(content@));
                proof {
                    assert(words@.len() == ws.len());
                }
                let mut w: usize = 0;
                while w < k
                    invariant
                        w <= k,
                        k == words@.len(),
                        k == ws.len(),
                        forall|t: int| 0 <= t < words@.len()
                            ==> (#[trigger] words@[t])@ == ws[t],
                        replies@.len() == 1 + w,
                        replies@[0] matches WsReply::ChatStart { request_id: rid, provider: p }
                            && rid@ == spec_request_id(n as int) && p@ == provider_view,
                        forall|t: int| 1 <= t <= w
                            ==> (#[trigger] replies@[t] matches WsReply::ChatChunk {
                                request_id: rid, content: c, index }
                                && rid@ == spec_request_id(n as int)
                                && c@ == ws[t - 1] + seq![32u8]
                                && index as int == t - 1),
                    decreases k - w,
                {
                    let mut chunk = copy_vec(&words[w]);
                    chunk.push(32);
                    proof {
                        assert(chunk@ =~= ws[w as int] + seq![32u8]);
                    }
                    replies.push(WsReply::ChatChunk {
                        request_id: request_id(n),
                        content: chunk,
                        index: w as u64,
                    });
                    w += 1;
                }
                replies.push(WsReply::ChatDone {
                    request_id: request_id(n),
                    total_tokens: k as u64,
                    full_content: text,
                });
            }
            (n, replies)
        },
        WsEvent::Ping { now_millis } => {
            replies.push(WsReply::Pong { timestamp: now_millis });
            (counter, replies)
        },
        WsEvent::Status { uptime_secs } => {
            replies.push(WsReply::StatusReply { requests_processed: counter, uptime_secs });
            (counter, replies)
        },
        WsEvent::UnknownKind { .. } => {
            replies.push(WsReply::ErrorReport);
            (counter, replies)
        },
        WsEvent::BadJson => {
            replies.push(WsReply::ErrorReport);
            (counter, replies)
        },
    }
}

} // verus!
