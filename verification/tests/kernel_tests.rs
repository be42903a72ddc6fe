use bizclaw_brain::fixed::{FX_ONE, clamp_fx, mul_fx, div_fx, exp_fx};
use bizclaw_brain::quant::{quantize, dequantize, dequantize_region, dot_q8};
use bizclaw_brain::format::QuantKind;
use bizclaw_brain::attention::{attend, dot_fx};
use bizclaw_brain::kv_cache::KvCache;
use bizclaw_brain::rope::apply_rope;
use bizclaw_brain::sampler::{Sampler, SamplerConfig, SamplerState, argmax_fx};
use bizclaw_brain::tokenizer::{Tokenizer, MergeRule};
use bizclaw_brain::grammar::{Grammar, GrammarState, allowed_mask, mask_logits, REJECT};
use bizclaw_brain::errors::BrainError;
use bizclaw_brain::channels::{TelegramUpdate, TelegramMessage, TelegramChat, TelegramUser, ThreadKind, default_true, default_poll_interval, dec_i64, parse_decimal, advance_update_cursor};
use bizclaw_brain::gateway::{WsEvent, WsReply, handle_ws_event};

#[test]
fn fixed_point_arithmetic_exact_values() {
    assert_eq!(clamp_fx(5), 5);
    assert_eq!(clamp_fx(1 << 60), 2147483648);
    assert_eq!(mul_fx(FX_ONE, FX_ONE), FX_ONE);
    assert_eq!(mul_fx(2 * FX_ONE, 3 * FX_ONE), 6 * FX_ONE);
    assert_eq!(div_fx(6 * FX_ONE, 3 * FX_ONE), 2 * FX_ONE);
    assert_eq!(exp_fx(0), FX_ONE);
    assert!(exp_fx(-FX_ONE) < FX_ONE && exp_fx(-FX_ONE) > 0);
}

#[test]
fn dequantized_value_within_one_step_of_reference() {
    let scale = 1000i64;
    // Exactly representable value.
    let q = quantize(100_000, scale);
    assert_eq!(q, 100);
    assert_eq!(dequantize(q, scale), 100_000);
    // A value off the grid lands within one step.
    let v = 100_499i64;
    let d = dequantize(quantize(v, scale), scale);
    assert!((d - v).abs() < scale);
    // Negative side too.
    let v2 = -33_333i64;
    let d2 = dequantize(quantize(v2, scale), scale);
    assert!((d2 - v2).abs() < scale);
}

#[test]
fn fx64_region_decodes_exact_values() {
    let vals: [i64; 3] = [65536, -65536, 123456];
    let mut bytes: Vec<u8> = Vec::new();
    for v in vals {
        bytes.extend_from_slice(&(v as u64).to_le_bytes());
    }
    let out = dequantize_region(&bytes, QuantKind::Fx64, 0, 3).expect("decode");
    assert_eq!(out, vec![65536, -65536, 123456]);
}

#[test]
fn fused_dot_matches_dequantize_then_multiply() {
    // One block: scale then 32 signed bytes.
    let scale = 2000u32;
    let mut bytes: Vec<u8> = Vec::new();
    bytes.extend_from_slice(&scale.to_le_bytes());
    for i in 0..32u8 {
        bytes.push(i); // quant levels 0..31
    }
    let x: Vec<i64> = (0..32).map(|i| (i as i64) * 100).collect();
    let fused = dot_q8(&bytes, 0, 32, &x).expect("dot");
    let dq = dequantize_region(&bytes, QuantKind::Q8, 0, 32).expect("decode");
    let manual = dot_fx(&dq, &x);
    assert_eq!(fused, manual);
}

#[test]
fn invalid_block_scale_propagates_as_format_error() {
    let mut bytes: Vec<u8> = Vec::new();
    bytes.extend_from_slice(&0u32.to_le_bytes()); // zero scale is invalid
    for _ in 0..32 {
        bytes.push(1);
    }
    assert!(matches!(
        dequantize_region(&bytes, QuantKind::Q8, 0, 32),
        Err(BrainError::Format)
    ));
}

#[test]
fn cached_attention_equals_recomputation_from_scratch() {
    let mut cache = KvCache::new(8, 2);
    let history_k = vec![vec![1000i64, 2000], vec![-500, 700], vec![250, -125]];
    let history_v = vec![vec![100i64, 200], vec![300, -400], vec![500, 600]];
    let q = vec![4000i64, -2500];
    let scale = FX_ONE / 2;
    let mut incremental: Vec<Vec<i64>> = Vec::new();
    for p in 0..3 {
        cache.append(history_k[p].clone(), history_v[p].clone()).expect("append");
        incremental.push(attend(&q, &cache.keys, &cache.vals, scale, 2));
    }
    // Recompute each position from scratch over the prefix alone.
    for p in 0..3 {
        let ks: Vec<Vec<i64>> = history_k[..=p].to_vec();
        let vs: Vec<Vec<i64>> = history_v[..=p].to_vec();
        let scratch = attend(&q, &ks, &vs, scale, 2);
        assert_eq!(incremental[p], scratch);
    }
}

#[test]
fn cache_append_fails_only_when_exhausted() {
    let mut cache = KvCache::new(2, 1);
    assert!(cache.append(vec![1], vec![2]).is_ok());
    assert!(cache.append(vec![3], vec![4]).is_ok());
    assert!(matches!(cache.append(vec![5], vec![6]), Err(BrainError::Capacity)));
    assert_eq!(cache.len(), 2);
}

#[test]
fn rope_is_identity_at_position_zero_and_rotates_later() {
    let v = vec![10000i64, 20000, -30000, 40000];
    let r0 = apply_rope(&v, 0, 4);
    assert_eq!(r0, v);
    let r5 = apply_rope(&v, 5, 4);
    assert_ne!(r5, v);
    assert_eq!(r5.len(), v.len());
}

#[test]
fn zero_temperature_is_argmax_regardless_of_seed() {
    let logits = vec![5i64 * FX_ONE, 9 * FX_ONE, 7 * FX_ONE, 9 * FX_ONE];
    let cfg = SamplerConfig {
        temperature: 0,
        top_p: FX_ONE,
        top_k: 1,
        repeat_penalty: FX_ONE,
        repeat_last_n: 4,
    };
    let window = SamplerState::new(4);
    let mut s1 = Sampler::new(cfg, 1);
    let mut s2 = Sampler::new(cfg, 999_999);
    let a = s1.sample(&logits, &window);
    let b = s2.sample(&logits, &window);
    assert_eq!(a, 1); // first index of the maximum
    assert_eq!(b, 1);
    assert_eq!(argmax_fx(&logits), 1);
}

#[test]
fn sampled_id_always_inside_vocabulary() {
    let logits = vec![0i64; 7];
    let cfg = SamplerConfig {
        temperature: 45875,
        top_p: 58982,
        top_k: 3,
        repeat_penalty: 72090,
        repeat_last_n: 4,
    };
    let mut window = SamplerState::new(4);
    let mut s = Sampler::new(cfg, 7);
    for _ in 0..50 {
        let id = s.sample(&logits, &window);
        assert!((id as usize) < 7);
        window.push(id);
    }
}

#[test]
fn byte_level_round_trip_over_fallback_tokenizer() {
    let tok = Tokenizer::fallback();
    assert!(tok.degraded);
    let inputs: [&[u8]; 4] = [b"", b"hello world", b"\x00\xff\x80", b"mixed \xc3\xa9 bytes"];
    for s in inputs {
        let ids = tok.encode(&s.to_vec());
        let back = tok.decode(&ids);
        assert_eq!(back, s.to_vec());
    }
}

#[test]
fn ranked_merges_apply_and_round_trip() {
    // Byte tokens for all 256 values, then "ab" as a merged token.
    let mut vocab: Vec<Vec<u8>> = (0..=255u8).map(|b| vec![b]).collect();
    vocab.push(b"ab".to_vec()); // id 256
    vocab.push(Vec::new()); // bos 257
    vocab.push(Vec::new()); // eos 258
    let merges = vec![MergeRule { left: b'a' as u32, right: b'b' as u32, result: 256 }];
    let tok = Tokenizer::from_parts(vocab, merges, 257, 258, 0).expect("tokenizer");
    let ids = tok.encode(&b"xabab".to_vec());
    assert_eq!(ids, vec![b'x' as u32, 256, 256]);
    assert_eq!(tok.decode(&ids), b"xabab".to_vec());
}

#[test]
fn inconsistent_merge_rule_is_rejected() {
    let mut vocab: Vec<Vec<u8>> = (0..=255u8).map(|b| vec![b]).collect();
    vocab.push(b"zz".to_vec()); // id 256, not "ab"
    let merges = vec![MergeRule { left: b'a' as u32, right: b'b' as u32, result: 256 }];
    assert!(matches!(
        Tokenizer::from_parts(vocab, merges, 0, 1, 2),
        Err(BrainError::Format)
    ));
}

fn two_state_grammar() -> Grammar {
    // State 0 expects 'a', state 1 expects 'b'; anything else rejects.
    let mut t0 = vec![REJECT; 256];
    t0[b'a' as usize] = 1;
    let mut t1 = vec![REJECT; 256];
    t1[b'b' as usize] = 0;
    Grammar {
        n_states: 2,
        start: 0,
        accepting: vec![true, false],
        terminal: vec![false, false],
        trans: vec![t0, t1],
    }
}

#[test]
fn accepted_tokens_keep_automaton_nonrejecting_and_text_revalidates() {
    let g = two_state_grammar();
    let mut st = GrammarState::new(&g);
    assert!(st.accept(&g, &b"ab".to_vec()).is_ok());
    assert!(st.accept(&g, &b"a".to_vec()).is_ok());
    assert!(st.accept(&g, &b"ba".to_vec()).is_ok());
    // The concatenation revalidates standalone from the start state.
    let final_state = g.advance(g.start, &b"ababa".to_vec());
    assert_eq!(final_state, st.state);
    assert!(final_state < g.n_states);
    // A rejecting token is a grammar error and leaves the state unchanged.
    let before = st.state;
    assert!(matches!(st.accept(&g, &b"q".to_vec()), Err(BrainError::Grammar)));
    assert_eq!(st.state, before);
}

#[test]
fn grammar_validates_accepting_runs() {
    let g = two_state_grammar();
    assert!(g.validates(&b"abab".to_vec())); // ends in state 0, accepting
    assert!(!g.validates(&b"aba".to_vec())); // ends in state 1, not accepting
    assert!(!g.validates(&b"q".to_vec())); // rejects outright
}

#[test]
fn grammar_mask_blocks_disallowed_ids() {
    let g = two_state_grammar();
    let vocab: Vec<Vec<u8>> = vec![b"a".to_vec(), b"b".to_vec(), b"ab".to_vec(), b"q".to_vec()];
    let allowed = allowed_mask(&g, 0, &vocab);
    assert_eq!(allowed, vec![true, false, true, false]);
    let logits = vec![1000i64, 2000, 3000, 4000];
    let masked = mask_logits(&logits, &allowed);
    assert_eq!(masked[0], 1000);
    assert_eq!(masked[2], 3000);
    assert!(masked[1] < -2_000_000_000);
    assert!(masked[3] < -2_000_000_000);
}

#[test]
fn telegram_update_converts_private_chats_to_direct() {
    let upd = TelegramUpdate {
        update_id: 7,
        message: Some(TelegramMessage {
            message_id: 1,
            from: Some(TelegramUser {
                id: -42,
                is_bot: false,
                first_name: b"Kim".to_vec(),
                last_name: None,
                username: None,
            }),
            chat: TelegramChat { id: 1234, chat_type: b"private".to_vec(), title: None },
            text: Some(b"hello".to_vec()),
            date: 0,
        }),
    };
    let im = upd.to_incoming(99).expect("incoming");
    assert_eq!(im.thread_type, ThreadKind::Direct);
    assert_eq!(im.thread_id, b"1234".to_vec());
    assert_eq!(im.sender_id, b"-42".to_vec());
    assert_eq!(im.content, b"hello".to_vec());
    assert_eq!(im.timestamp, 99);
    // An update without text converts to nothing.
    let empty = TelegramUpdate { update_id: 8, message: None };
    assert!(empty.to_incoming(99).is_none());
}

#[test]
fn channel_defaults_and_cursor() {
    assert!(default_true());
    assert_eq!(default_poll_interval(), 1);
    assert_eq!(dec_i64(0), b"0".to_vec());
    assert_eq!(dec_i64(-105), b"-105".to_vec());
    let ups = vec![
        TelegramUpdate { update_id: 4, message: None },
        TelegramUpdate { update_id: 9, message: None },
    ];
    assert_eq!(advance_update_cursor(2, &ups), 9);
    assert_eq!(advance_update_cursor(2, &Vec::new()), 2);
}

#[test]
fn gateway_counter_moves_only_on_chat() {
    let (c1, r1) = handle_ws_event(0, WsEvent::Chat {
        content: b"hi".to_vec(),
        stream: false,
        provider: b"default".to_vec(),
    });
    assert_eq!(c1, 1);
    assert_eq!(r1.len(), 1);
    match &r1[0] {
        WsReply::ChatResponse { request_id, provider, content } => {
            assert_eq!(request_id, &b"req_1".to_vec());
            assert_eq!(provider, &b"default".to_vec());
            assert_eq!(content, &b"[gateway] Echo: hi".to_vec());
        },
        _ => panic!("expected a chat response"),
    }
    let (c2, r2) = handle_ws_event(c1, WsEvent::Ping { now_millis: 5 });
    assert_eq!(c2, 1);
    assert!(matches!(r2[0], WsReply::Pong { timestamp: 5 }));
    let (c3, r3) = handle_ws_event(c2, WsEvent::Status { uptime_secs: 17 });
    assert_eq!(c3, 1);
    assert!(matches!(r3[0], WsReply::StatusReply { requests_processed: 1, uptime_secs: 17 }));
    let (c4, r4) = handle_ws_event(c3, WsEvent::BadJson);
    assert_eq!(c4, 1);
    assert!(matches!(r4[0], WsReply::ErrorReport));
}

#[test]
fn gateway_streaming_chat_chunks_per_word() {
    let (c, replies) = handle_ws_event(6, WsEvent::Chat {
        content: b"one two".to_vec(),
        stream: true,
        provider: b"p".to_vec(),
    });
    assert_eq!(c, 7);
    // Start, one chunk per space-separated word of the reply, done.
    let expected_words: [&[u8]; 4] = [b"[gateway]", b"Echo:", b"one", b"two"];
    assert_eq!(replies.len(), 2 + expected_words.len());
    match &replies[0] {
        WsReply::ChatStart { request_id, provider } => {
            assert_eq!(request_id, &b"req_7".to_vec());
            assert_eq!(provider, &b"p".to_vec());
        },
        _ => panic!("expected a start"),
    }
    for (w, word) in expected_words.iter().enumerate() {
        match &replies[1 + w] {
            WsReply::ChatChunk { request_id, content, index } => {
                assert_eq!(request_id, &b"req_7".to_vec());
                let mut want = word.to_vec();
                want.push(b' ');
                assert_eq!(content, &want);
                assert_eq!(*index, w as u64);
            },
            _ => panic!("expected a chunk"),
        }
    }
    match &replies[replies.len() - 1] {
        WsReply::ChatDone { request_id, total_tokens, full_content } => {
            assert_eq!(request_id, &b"req_7".to_vec());
            assert_eq!(*total_tokens, expected_words.len() as u64);
            assert_eq!(full_content, &b"[gateway] Echo: one two".to_vec());
        },
        _ => panic!("expected a done"),
    }
}

#[test]
fn decimal_parse_inverts_printing() {
    assert_eq!(parse_decimal(&b"0".to_vec()), Some(0));
    assert_eq!(parse_decimal(&b"1234".to_vec()), Some(1234));
    assert_eq!(parse_decimal(&b"-42".to_vec()), Some(-42));
    assert_eq!(parse_decimal(&b"".to_vec()), None);
    assert_eq!(parse_decimal(&b"007".to_vec()), None);
    assert_eq!(parse_decimal(&b"-0".to_vec()), None);
    assert_eq!(parse_decimal(&b"12a".to_vec()), None);
    // Round trip through the printer.
    assert_eq!(parse_decimal(&dec_i64(-987654)), Some(-987654));
}
