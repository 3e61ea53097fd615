//! The multistream-select negotiation against the recorded handshake bytes
//! of a real simultaneous-connect session, whole and chunked.

use mina_recorder::multistream_select;
use mina_recorder::negotiation::State;

#[test]
fn simultaneous_connect_test() {
    let mut state = State::new();

    let data = hex::decode("132f6d756c746973747265616d2f312e302e300a1d2f6c69627032702f73696d756c74616e656f75732d636f6e6e6563740a072f6e6f6973650a").expect("valid constant");
    let result = state.poll(false, &data);
    assert!(result.agreed.is_none());

    let data = hex::decode("132f6d756c746973747265616d2f312e302e300a1d2f6c69627032702f73696d756c74616e656f75732d636f6e6e6563740a072f6e6f6973650a1c73656c6563743a31383333363733363237323438313935323033380a").expect("valid constant");
    let result = state.poll(true, &data);
    assert!(result.agreed.is_none());

    let data = hex::decode("1c73656c6563743a31343838333538303531393436383433383239370a0a726573706f6e6465720a").expect("valid constant");
    let result = state.poll(false, &data);
    assert!(result.agreed.is_none());

    let data = hex::decode("0a696e69746961746f720a072f6e6f6973650a").expect("valid constant");
    let result = state.poll(true, &data);
    assert!(result.agreed.is_none());

    let data = hex::decode("072f6e6f6973650a").expect("valid constant");
    let result = state.poll(false, &data);
    assert!(result.agreed.is_none());

    let data = hex::decode("0020c29c4aa9bc861ac3163bfc562ab3f1ca984440f50ca7944ab1fcb40b398bac34").expect("valid constant");
    let result = state.poll(true, &data);
    assert!(result.agreed.is_some());
}

#[test]
fn simultaneous_connect_with_accumulator_test() {
    let mut state = State::new();

    let data = hex::decode("132f6d756c746973747265616d2f312e302e300a1d2f6c69627032702f73696d756c74616e656f75732d636f6e6e6563740a072f6e6f6973650a").expect("valid constant");
    let result = state.poll(false, &data);
    assert!(result.agreed.is_none());

    let mut data = hex::decode("132f6d756c746973747265616d2f312e302e300a1d2f6c69627032702f73696d756c74616e656f75732d636f6e6e6563740a072f6e6f6973650a1c73656c6563743a31383333363733363237323438313935323033380a").expect("valid constant");
    let chunks = [1, 19, 1, 29, 1, 7, 1, 28];
    for chunk in chunks {
        let chunk_data = data.drain(..chunk).collect::<Vec<u8>>();
        let result = state.poll(true, &chunk_data);
        assert!(result.agreed.is_none());
    }

    let mut data = hex::decode("1c73656c6563743a31343838333538303531393436383433383239370a0a726573706f6e6465720a").expect("valid constant");
    let chunks = [29, 11];
    for chunk in chunks {
        let chunk_data = data.drain(..chunk).collect::<Vec<u8>>();
        let result = state.poll(false, &chunk_data);
        assert!(result.agreed.is_none());
    }

    let mut data = hex::decode("0a696e69746961746f720a072f6e6f6973650a").expect("valid constant");
    let chunks = [1, 10, 1, 7];
    for chunk in chunks {
        let chunk_data = data.drain(..chunk).collect::<Vec<u8>>();
        let result = state.poll(true, &chunk_data);
        assert!(result.agreed.is_none());
    }

    let data = hex::decode("072f6e6f6973650a").expect("valid constant");
    let result = state.poll(false, &data);
    assert!(result.agreed.is_none());

    let data = hex::decode("0020c29c4aa9bc861ac3163bfc562ab3f1ca984440f50ca7944ab1fcb40b398bac34").expect("valid constant");
    let result = state.poll(true, &data);
    assert!(result.agreed.is_some());
}

#[test]
fn agreement_carries_protocol_and_trailing_bytes() {
    let mut state = State::new();
    // Each side proposes /noise with no simultaneous-connect handshake.
    let result = state.poll(false, &hex::decode("072f6e6f6973650a").expect("valid constant"));
    assert!(result.agreed.is_none());
    assert_eq!(result.tokens, vec![b"/noise".to_vec()]);
    let result = state.poll(true, &hex::decode("072f6e6f6973650a").expect("valid constant"));
    assert!(result.agreed.is_none());
    // The next chunk of either direction passes through under the agreement.
    let result = state.poll(true, &[0xde, 0xad, 0xbe, 0xef]);
    let (proto, fwd) = result.agreed.expect("agreement reached");
    assert_eq!(proto, b"/noise".to_vec());
    assert_eq!(fwd, vec![0xde, 0xad, 0xbe, 0xef]);
    // And so does every later chunk.
    let result = state.poll(true, &[0x01, 0x02]);
    let (_, fwd) = result.agreed.expect("still agreed");
    assert_eq!(fwd, vec![0x01, 0x02]);
}

#[test]
fn final_agreement_bytes_of_the_recorded_session() {
    // The last chunk of the recorded session again, checking the forwarded
    // bytes, not only that agreement was reached.
    let mut state = State::new();
    state.poll(false, &hex::decode("132f6d756c746973747265616d2f312e302e300a1d2f6c69627032702f73696d756c74616e656f75732d636f6e6e6563740a072f6e6f6973650a").expect("valid constant"));
    state.poll(true, &hex::decode("132f6d756c746973747265616d2f312e302e300a1d2f6c69627032702f73696d756c74616e656f75732d636f6e6e6563740a072f6e6f6973650a1c73656c6563743a31383333363733363237323438313935323033380a").expect("valid constant"));
    state.poll(false, &hex::decode("1c73656c6563743a31343838333538303531393436383433383239370a0a726573706f6e6465720a").expect("valid constant"));
    state.poll(true, &hex::decode("0a696e69746961746f720a072f6e6f6973650a").expect("valid constant"));
    state.poll(false, &hex::decode("072f6e6f6973650a").expect("valid constant"));
    let last = hex::decode("0020c29c4aa9bc861ac3163bfc562ab3f1ca984440f50ca7944ab1fcb40b398bac34").expect("valid constant");
    let result = state.poll(true, &last);
    let (proto, fwd) = result.agreed.expect("agreement reached");
    assert_eq!(proto, b"/noise".to_vec());
    assert_eq!(fwd, last);
}

#[test]
fn tokens_of_one_chunk() {
    let mut state = State::new();
    let data = hex::decode("132f6d756c746973747265616d2f312e302e300a1d2f6c69627032702f73696d756c74616e656f75732d636f6e6e6563740a072f6e6f6973650a").expect("valid constant");
    let result = state.poll(false, &data);
    assert_eq!(
        result.tokens,
        vec![
            b"/multistream/1.0.0".to_vec(),
            b"/libp2p/simultaneous-connect".to_vec(),
            b"/noise".to_vec(),
        ],
    );
    assert!(result.error.is_none());
}

#[test]
fn newline_framed_words_become_tokens() {
    let mut state = State::new();
    let result = state.poll(true, b"\ninitiator\n\nresponder\n");
    assert_eq!(result.tokens, vec![b"initiator".to_vec(), b"responder".to_vec()]);
}

#[test]
fn partial_token_waits_for_more_bytes() {
    let mut state = State::new();
    let result = state.poll(false, &[0x07, b'/', b'n', b'o']);
    assert!(result.tokens.is_empty());
    let result = state.poll(false, &[b'i', b's', b'e', b'\n']);
    assert_eq!(result.tokens, vec![b"/noise".to_vec()]);
}

#[test]
fn malformed_message_poisons_one_direction_only() {
    let mut outer = multistream_select::State::new(0, true);
    // A one-byte message that is not UTF-8.
    let out = outer.on_data(true, &[0x01, 0xff]);
    assert_eq!(out.error, Some(vec![0xffu8]));
    assert!(out.tokens.is_empty());
    // The poisoned direction's further bytes are dropped.
    let out = outer.on_data(true, &hex::decode("072f6e6f6973650a").expect("valid constant"));
    assert!(out.tokens.is_empty());
    assert!(out.error.is_none());
    // The other direction still tokenizes.
    let out = outer.on_data(false, &hex::decode("072f6e6f6973650a").expect("valid constant"));
    assert_eq!(out.tokens, vec![b"/noise".to_vec()]);
}

#[test]
fn na_withdraws_the_other_sides_proposal() {
    let mut state = State::new();
    // The outgoing side proposes /noise.
    state.poll(false, &hex::decode("072f6e6f6973650a").expect("valid constant"));
    // The incoming side answers na, withdrawing it, then proposes /yamux.
    let result = state.poll(true, b"\x03na\n\x07/yamux\n");
    assert_eq!(result.tokens, vec![b"na".to_vec(), b"/yamux".to_vec()]);
    assert!(result.agreed.is_none());
    // The outgoing side now proposes /yamux too; its next chunk agrees.
    let result = state.poll(false, b"\x07/yamux\n");
    assert!(result.agreed.is_none());
    let result = state.poll(false, b"rest");
    let (proto, fwd) = result.agreed.expect("agreement reached");
    assert_eq!(proto, b"/yamux".to_vec());
    assert_eq!(fwd, b"rest".to_vec());
}

#[test]
fn outer_layer_records_the_agreed_protocol() {
    let mut outer = multistream_select::State::new(5, false);
    assert!(outer.protocol().is_none());
    outer.on_data(false, b"\x07/noise\n");
    outer.on_data(true, b"\x07/noise\n");
    let out = outer.on_data(true, &[1, 2, 3]);
    assert!(out.agreed.is_some());
    assert_eq!(outer.protocol().expect("agreed"), &b"/noise".to_vec());
}
