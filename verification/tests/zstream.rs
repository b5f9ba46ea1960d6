use neb_offload::zstream::{compress_bound, CompressStream, DecompressStream};

const ZSTD_MAGIC: [u8; 4] = 0xFD2FB528u32.to_le_bytes();

fn sample_data(n: usize) -> Vec<u8> {
    // Repetitive but not trivial data, similar to serialized game packets.
    let mut v = Vec::with_capacity(n * 64);
    for i in 0..n {
        v.extend_from_slice(
            format!("packet-{{\"id\":{},\"payload\":\"abcdefghij\"}}", i % 7).as_bytes(),
        );
    }
    v
}

#[test]
fn roundtrip_single_message() {
    let raw = sample_data(50);
    let mut cctx = CompressStream::new(3, 23).unwrap();
    let mut compressed = vec![0u8; compress_bound(raw.len())];
    let len = cctx.compress(&raw, &mut compressed).unwrap();
    compressed.truncate(len);

    let mut dctx = DecompressStream::new().unwrap();
    let mut out = vec![0u8; raw.len()];
    let produced = dctx.decompress(&compressed, &mut out).unwrap();
    assert_eq!(produced, raw.len());
    assert_eq!(out, raw);
}

#[test]
fn produces_magicless_frames() {
    let raw = sample_data(10);
    let mut cctx = CompressStream::new(3, 23).unwrap();
    let mut compressed = vec![0u8; compress_bound(raw.len())];
    let len = cctx.compress(&raw, &mut compressed).unwrap();
    assert_ne!(&compressed[..4], &ZSTD_MAGIC, "frame must be magicless");
    assert!(len >= 4, "magicless frame should still have content");
}

/// Deterministic pseudo-random bytes (xorshift), so messages share a large
/// incompressible base: the realistic case where one-shot compression
/// cannot help but a reused window can.
fn prng_bytes(seed: u64, n: usize) -> Vec<u8> {
    let mut state = seed.max(1);
    (0..n)
        .map(|_| {
            state ^= state << 13;
            state ^= state >> 7;
            state ^= state << 17;
            (state & 0xff) as u8
        })
        .collect()
}

#[test]
fn streaming_context_reuse_improves_ratio() {
    // Two messages share a 4KB random base (e.g. repeated structures of
    // consecutive aggregated packets) and differ only in a short suffix.
    let base = prng_bytes(42, 4096);
    let mut msg1 = base.clone();
    msg1.extend_from_slice(b"first-message-suffix");
    let mut msg2 = base.clone();
    msg2.extend_from_slice(b"other-message-suffix!");

    let mut cctx = CompressStream::new(3, 23).unwrap();
    let mut dctx = DecompressStream::new().unwrap();

    let mut buf1 = vec![0u8; compress_bound(msg1.len())];
    let len1 = cctx.compress(&msg1, &mut buf1).unwrap();
    let mut buf2 = vec![0u8; compress_bound(msg2.len())];
    let len2 = cctx.compress(&msg2, &mut buf2).unwrap();

    let mut oneshot = CompressStream::new(3, 23).unwrap();
    let mut buf3 = vec![0u8; compress_bound(msg2.len())];
    let len3 = oneshot.compress_oneshot(&msg2, &mut buf3).unwrap();

    assert!(
        len2 < len3 / 4,
        "context reuse should shrink the repeated message: streamed {} vs oneshot {}",
        len2,
        len3
    );

    // Both messages decode correctly through one streaming decoder.
    let mut out = vec![0u8; msg1.len()];
    assert_eq!(
        dctx.decompress(&buf1[..len1], &mut out).unwrap(),
        msg1.len()
    );
    assert_eq!(out, msg1);
    let mut out2 = vec![0u8; msg2.len()];
    assert_eq!(
        dctx.decompress(&buf2[..len2], &mut out2).unwrap(),
        msg2.len()
    );
    assert_eq!(out2, msg2);
}

#[test]
fn oneshot_frames_decode_through_streaming_decoder() {
    // The path of connections without context reuse: every message is a
    // complete frame, decoded by a streaming context.
    let mut oneshot = CompressStream::new(3, 21).unwrap();
    let mut dctx = DecompressStream::new().unwrap();
    for i in 0..3 {
        let raw = sample_data(20 + i);
        let mut buf = vec![0u8; compress_bound(raw.len())];
        let len = oneshot.compress_oneshot(&raw, &mut buf).unwrap();
        let mut out = vec![0u8; raw.len()];
        assert_eq!(dctx.decompress(&buf[..len], &mut out).unwrap(), raw.len());
        assert_eq!(out, raw);
    }
}

#[test]
fn paired_reset_keeps_stream_working() {
    let raw = sample_data(30);
    let mut cctx = CompressStream::new(3, 23).unwrap();
    let mut dctx = DecompressStream::new().unwrap();

    let mut buf = vec![0u8; compress_bound(raw.len())];
    let len = cctx.compress(&raw, &mut buf).unwrap();
    let mut out = vec![0u8; raw.len()];
    dctx.decompress(&buf[..len], &mut out).unwrap();

    cctx.reset().unwrap();
    dctx.reset().unwrap();

    let len = cctx.compress(&raw, &mut buf).unwrap();
    let mut out = vec![0u8; raw.len()];
    let produced = dctx.decompress(&buf[..len], &mut out).unwrap();
    assert_eq!(produced, raw.len());
    assert_eq!(out, raw);
}

#[test]
fn output_size_mismatch_is_detected() {
    // Simulates desync: the protocol carries the expected raw size, and
    // decompress_exact must fail loudly instead of silently truncating
    // (a short read would also poison the streaming window history).
    let raw = sample_data(80);
    let mut cctx = CompressStream::new(3, 23).unwrap();
    let mut compressed = vec![0u8; compress_bound(raw.len())];
    let len = cctx.compress(&raw, &mut compressed).unwrap();

    let mut dctx = DecompressStream::new().unwrap();
    let mut short = vec![0u8; raw.len() / 2];
    assert!(dctx
        .decompress_exact(&compressed[..len], &mut short)
        .is_err());

    // And the exact-size path succeeds.
    let mut dctx2 = DecompressStream::new().unwrap();
    let mut exact = vec![0u8; raw.len()];
    dctx2
        .decompress_exact(&compressed[..len], &mut exact)
        .unwrap();
    assert_eq!(exact, raw);
}

#[test]
fn bound_is_the_documented_formula() {
    assert_eq!(compress_bound(0), 64);
    assert_eq!(compress_bound(1000), 1000 + 3 + 63);
    assert_eq!(compress_bound(131071), 131071 + 511);
    assert_eq!(compress_bound(131072), 131072 + 512);
    assert_eq!(compress_bound(8 * 1024 * 1024), 8 * 1024 * 1024 + 32768);
    assert_eq!(compress_bound(usize::MAX), usize::MAX - 71);
}

#[test]
fn unusable_window_logs_are_refused() {
    for window_log in [1u32, 9, 32, u32::MAX] {
        let e = CompressStream::new(3, window_log).err().unwrap();
        assert!(e.message().starts_with("set windowLog: "), "{}", e.message());
    }
    for window_log in [0u32, 10, 21, 25, 30] {
        assert!(CompressStream::new(3, window_log).is_ok());
    }
}

#[test]
fn levels_are_never_refused() {
    for level in [i32::MIN, -5, 0, 1, 22, 1000] {
        assert!(CompressStream::new(level, 21).is_ok());
    }
}

#[test]
fn a_long_conversation_comes_back() {
    let mut cctx = CompressStream::new(3, 21).unwrap();
    let mut dctx = DecompressStream::new().unwrap();
    for i in 0..20usize {
        let mut raw = prng_bytes(i as u64 + 1, i * 37);
        raw.extend_from_slice(&sample_data(i));
        let mut buf = vec![0u8; compress_bound(raw.len()) + 64];
        let len = cctx.compress(&raw, &mut buf).unwrap();
        let mut out = vec![0u8; raw.len()];
        dctx.decompress_exact(&buf[..len], &mut out).unwrap();
        assert_eq!(out, raw);
    }
}

#[test]
fn too_small_output_is_reported() {
    let raw = prng_bytes(7, 5000);
    let mut cctx = CompressStream::new(3, 21).unwrap();
    let mut tiny = [0u8; 10];
    let e = cctx.compress(&raw, &mut tiny).err().unwrap();
    assert_eq!(e.message(), "output buffer too small");
    let e = cctx.compress_oneshot(&raw, &mut tiny).err().unwrap();
    assert!(e.message().starts_with("oneshot compress: "));
}

#[test]
fn exact_decompression_reports_the_kind_of_mismatch() {
    let raw = sample_data(3);
    let mut cctx = CompressStream::new(3, 21).unwrap();
    let mut buf = vec![0u8; compress_bound(raw.len())];
    let len = cctx.compress(&raw, &mut buf).unwrap();

    let mut dctx = DecompressStream::new().unwrap();
    let mut long = vec![0u8; raw.len() + 5];
    let e = dctx
        .decompress_exact(&buf[..len], &mut long)
        .err()
        .unwrap();
    assert_eq!(
        e.message(),
        format!(
            "decompressed size mismatch: expected {}, got {} (stream desync)",
            raw.len() + 5,
            raw.len()
        )
    );

    let mut dctx = DecompressStream::new().unwrap();
    let mut short = vec![0u8; raw.len() - 1];
    let e = dctx
        .decompress_exact(&buf[..len], &mut short)
        .err()
        .unwrap();
    assert_eq!(
        e.message(),
        "decompressed data beyond expected size (stream desync)"
    );
}

#[test]
fn rubbish_fails_the_decoder_until_it_is_reset() {
    let mut dctx = DecompressStream::new().unwrap();
    let mut out = vec![0u8; 100];
    let e = dctx.decompress(&[0xFF; 40], &mut out).err().unwrap();
    assert!(e.message().starts_with("decompress: "));

    let raw = sample_data(2);
    let mut cctx = CompressStream::new(3, 21).unwrap();
    let mut buf = vec![0u8; compress_bound(raw.len())];
    let len = cctx.compress(&raw, &mut buf).unwrap();
    let mut exact = vec![0u8; raw.len()];
    assert!(dctx.decompress_exact(&buf[..len], &mut exact).is_err());

    dctx.reset().unwrap();
    dctx.decompress_exact(&buf[..len], &mut exact).unwrap();
    assert_eq!(exact, raw);
}

#[test]
fn a_one_sided_reset_is_a_desync() {
    let base = prng_bytes(42, 4096);
    let mut cctx = CompressStream::new(3, 23).unwrap();
    let mut dctx = DecompressStream::new().unwrap();
    let mut buf = vec![0u8; compress_bound(base.len())];
    let mut out = vec![0u8; base.len()];
    let len = cctx.compress(&base, &mut buf).unwrap();
    dctx.decompress_exact(&buf[..len], &mut out).unwrap();
    dctx.reset().unwrap();
    let len = cctx.compress(&base, &mut buf).unwrap();
    assert!(dctx.decompress_exact(&buf[..len], &mut out).is_err());
}

#[test]
fn one_shot_frames_leave_the_stream_alone() {
    let raw = sample_data(12);
    let mut cctx = CompressStream::new(3, 21).unwrap();
    let mut dctx = DecompressStream::new().unwrap();
    let mut buf = vec![0u8; compress_bound(raw.len())];
    let mut out = vec![0u8; raw.len()];
    for _ in 0..3 {
        let len = cctx.compress(&raw, &mut buf).unwrap();
        dctx.decompress_exact(&buf[..len], &mut out).unwrap();
        assert_eq!(out, raw);
        let mut frame = vec![0u8; compress_bound(raw.len())];
        let n = cctx.compress_oneshot(&raw, &mut frame).unwrap();
        let mut other = DecompressStream::new().unwrap();
        other.decompress_exact(&frame[..n], &mut out).unwrap();
        assert_eq!(out, raw);
    }
}

#[test]
fn one_shot_frames_are_those_of_a_fresh_stream() {
    let raw = sample_data(20);
    let mut used = CompressStream::new(5, 22).unwrap();
    let mut buf = vec![0u8; compress_bound(raw.len())];
    used.compress(&raw, &mut buf).unwrap();
    let n = used.compress_oneshot(&raw, &mut buf).unwrap();
    let mut fresh = CompressStream::new(5, 22).unwrap();
    let mut want = vec![0u8; compress_bound(raw.len())];
    let m = fresh.compress_oneshot(&raw, &mut want).unwrap();
    assert_eq!(buf[..n], want[..m]);

    // One decoder takes frame after frame.
    let mut dctx = DecompressStream::new().unwrap();
    let mut out = vec![0u8; raw.len()];
    for _ in 0..3 {
        assert_eq!(dctx.decompress(&want[..m], &mut out).unwrap(), raw.len());
        assert_eq!(out, raw);
    }
}

#[test]
fn frames_start_with_a_bare_header() {
    for level in [1, 3, 22] {
        for (window_log, window_byte) in [(21, 0x58), (23, 0x68), (25, 0x78)] {
            for raw in [vec![7u8], prng_bytes(9, 300), sample_data(40)] {
                let mut cctx = CompressStream::new(level, window_log).unwrap();
                let mut buf = vec![0u8; compress_bound(raw.len())];
                // Nothing in, nothing out.
                assert_eq!(cctx.compress(&[], &mut buf).unwrap(), 0);
                let n = cctx.compress(&raw, &mut buf).unwrap();
                assert!(n >= 6);
                assert_eq!(buf[..2], [0, window_byte]);
                assert_ne!(buf[..4], ZSTD_MAGIC);
                let n = cctx.compress_oneshot(&raw, &mut buf).unwrap();
                assert!(n >= 6);
                assert_eq!(buf[0], 0);
                assert_ne!(buf[..4], ZSTD_MAGIC);
            }
            let mut cctx = CompressStream::new(level, window_log).unwrap();
            let mut buf = vec![0u8; compress_bound(0)];
            assert_eq!(cctx.compress_oneshot(&[], &mut buf).unwrap(), 5);
            assert_eq!(buf[0], 0);
        }
    }
}

#[test]
fn a_buffer_that_is_just_filled_is_large_enough() {
    for raw in [vec![7u8], prng_bytes(3, 5000), sample_data(60)] {
        let mut buf = vec![0u8; compress_bound(raw.len())];
        let n = CompressStream::new(3, 23).unwrap().compress(&raw, &mut buf).unwrap();
        let mut exact = vec![0u8; n];
        let mut cctx = CompressStream::new(3, 23).unwrap();
        assert_eq!(cctx.compress(&raw, &mut exact).unwrap(), n);
        assert_eq!(exact[..], buf[..n]);
        let mut dctx = DecompressStream::new().unwrap();
        let mut out = vec![0u8; raw.len()];
        dctx.decompress_exact(&exact, &mut out).unwrap();
        assert_eq!(out, raw);

        let mut short = vec![0u8; n - 1];
        let mut cctx = CompressStream::new(3, 23).unwrap();
        let e = cctx.compress(&raw, &mut short).unwrap_err();
        assert_eq!(e.message(), "output buffer too small");
        // The last byte is missing, and so is something of the message.
        let mut dctx = DecompressStream::new().unwrap();
        assert!(dctx.decompress(&short, &mut out).unwrap() < raw.len());
    }
}
