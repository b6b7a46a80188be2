use base64::Engine;
use std::io::Cursor;
use tts_core::pipeline::assemble_with_pauses;
use tts_core::stream::{next_state, HopAccumulator};
use tts_core::stream::StreamEvent::{
    FirstAudio, PeerClosed, ProducerError, ProducerExhausted, UpgradeComplete,
};
use tts_core::stream::StreamState::{
    Cancelled, Complete, Errored, Opening, Streaming, Synthesizing,
};
use tts_core::wav::{duration_ms, encode_wav, encode_wav_base64};

#[test]
fn test_wav_layout() {
    let samples: Vec<i16> = vec![0, 1000, -1000, 32767, -32768];
    let bytes = encode_wav(&samples, 22050);
    // container size: 44-byte header plus two bytes per sample
    assert_eq!(bytes.len(), 44 + 2 * samples.len());
    assert_eq!(&bytes[0..4], b"RIFF");
    assert_eq!(&bytes[8..12], b"WAVE");
    assert_eq!(&bytes[12..16], b"fmt ");
    assert_eq!(&bytes[36..40], b"data");
    // sample rate, little endian, at offset 24
    assert_eq!(&bytes[24..28], &22050u32.to_le_bytes());
    // data size at offset 40
    assert_eq!(&bytes[40..44], &(2 * samples.len() as u32).to_le_bytes());
    // first sample bytes
    assert_eq!(&bytes[44..46], &0i16.to_le_bytes());
    assert_eq!(&bytes[46..48], &1000i16.to_le_bytes());
    assert_eq!(&bytes[48..50], &(-1000i16).to_le_bytes());
}

#[test]
fn test_wav_base64_decodes_to_same_samples() {
    let samples: Vec<i16> = vec![12, -34, 5678, -9999, 0, 42];
    let encoded = encode_wav_base64(&samples, 48000);
    assert!(!encoded.is_empty());
    let bytes = base64::engine::general_purpose::STANDARD
        .decode(encoded.as_bytes())
        .expect("valid base64");
    assert_eq!(&bytes[0..4], b"RIFF");
    let reader = hound::WavReader::new(Cursor::new(bytes)).expect("valid wav");
    let spec = reader.spec();
    assert_eq!(spec.channels, 1);
    assert_eq!(spec.sample_rate, 48000);
    assert_eq!(spec.bits_per_sample, 16);
    let decoded: Vec<i16> = reader.into_samples::<i16>().map(|s| s.unwrap()).collect();
    // the WAV sample count equals the pre-encoding PCM sample count
    assert_eq!(decoded, samples);
}

#[test]
fn test_duration() {
    assert_eq!(duration_ms(22050, 22050), 1000);
    assert_eq!(duration_ms(11025, 22050), 500);
    assert_eq!(duration_ms(0, 48000), 0);
}

#[test]
fn test_assemble_inserts_pauses() {
    let chunk_texts = vec!["Hi. ".to_string(), "there".to_string()];
    let chunk_audio = vec![vec![1i16, 2], vec![3i16]];
    let out = assemble_with_pauses(&chunk_texts, &chunk_audio, 1000);
    // 400 ms pause at 1000 Hz: 400 zero samples between the chunks
    assert_eq!(out.len(), 2 + 400 + 1);
    assert_eq!(out[0], 1);
    assert_eq!(out[1], 2);
    assert!(out[2..402].iter().all(|&s| s == 0));
    assert_eq!(out[402], 3);
}

#[test]
fn test_assemble_single_chunk_no_pause() {
    let chunk_texts = vec!["Only.".to_string()];
    let chunk_audio = vec![vec![7i16, 8, 9]];
    let out = assemble_with_pauses(&chunk_texts, &chunk_audio, 22050);
    assert_eq!(out, vec![7, 8, 9]);
}

#[test]
fn test_stream_states() {
    assert_eq!(next_state(Opening, UpgradeComplete), Synthesizing);
    assert_eq!(next_state(Synthesizing, FirstAudio), Streaming);
    assert_eq!(next_state(Streaming, ProducerExhausted), Complete);
    assert_eq!(next_state(Streaming, ProducerError), Errored);
    assert_eq!(next_state(Synthesizing, PeerClosed), Cancelled);
    // terminal states absorb every event
    assert_eq!(next_state(Complete, FirstAudio), Complete);
    assert_eq!(next_state(Errored, UpgradeComplete), Errored);
    assert_eq!(next_state(Cancelled, ProducerError), Cancelled);
    // out-of-order events leave the state alone
    assert_eq!(next_state(Opening, FirstAudio), Opening);
}

#[test]
fn test_hop_accumulator_counts() {
    let mut acc = HopAccumulator::new(256);
    acc.push(&vec![1i16; 600]);
    assert_eq!(acc.samples_received, 600);
    let mut total: usize = 0;
    let mut chunks: u64 = 0;
    while let Some(hop) = acc.next_hop() {
        assert_eq!(hop.len(), 256);
        total += hop.len();
        chunks += 1;
    }
    assert_eq!(chunks, 2);
    // 88 pending samples: less than half a hop, discarded
    let last = acc.finish();
    assert!(last.is_none());
    assert_eq!(acc.samples_emitted, 512);
    assert_eq!(acc.chunks_emitted, 2);
    assert_eq!(total as u64, acc.samples_emitted);
}

#[test]
fn test_hop_accumulator_pads_final_chunk() {
    let mut acc = HopAccumulator::new(256);
    acc.push(&vec![5i16; 300]);
    let first = acc.next_hop().expect("one full hop");
    assert_eq!(first.len(), 256);
    // 44 pending: less than half; push more to reach half a hop
    acc.push(&vec![5i16; 100]);
    assert!(acc.next_hop().is_none());
    let last = acc.finish().expect("padded final chunk");
    assert_eq!(last.len(), 256);
    assert!(last[0..144].iter().all(|&s| s == 5));
    assert!(last[144..].iter().all(|&s| s == 0));
    // the metadata total equals the sum of all emitted chunk lengths
    assert_eq!(acc.samples_emitted, 512);
    assert_eq!(acc.chunks_emitted, 2);
}
