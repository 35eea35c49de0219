use ffone::audio::{AudioCodec, DemuxError, EncodedAudioBuffer, EncodedAudioHeader, MuxedAudioBuffer};
use ffone::clock::ClockTime;
use ffone::demux::AudioDemuxer;

#[test]
fn test_demux() {
    const TS_IN_NANOS: u64 = 100000000;

    let mut demuxer = AudioDemuxer::new();

    let muxed_buf = {
        let mut data = vec![42; 5 + 8 + 16];

        data[0] = 1;
        data[1..5].copy_from_slice(&48000u32.to_be_bytes());
        data[5..5 + 8].copy_from_slice(&TS_IN_NANOS.to_be_bytes());

        MuxedAudioBuffer(data)
    };
    demuxer.push(muxed_buf);

    let encoded_buf = demuxer.pull().unwrap().unwrap();
    let expected_encoded_buf = EncodedAudioBuffer {
        header: EncodedAudioHeader {
            codec: AudioCodec::Opus,
            sample_rate: 48000,
        },
        start_ts: Some(ClockTime::from_nanos(TS_IN_NANOS)),
        data: vec![42; 16],
    };

    assert_eq!(encoded_buf, expected_encoded_buf);
}

#[test]
fn demux_rejects_short_and_unknown_frames() {
    assert_eq!(
        EncodedAudioBuffer::try_from(MuxedAudioBuffer(vec![])),
        Err(DemuxError::FrameTooShort)
    );
    assert_eq!(
        EncodedAudioBuffer::try_from(MuxedAudioBuffer(vec![7, 0, 0, 0, 0, 0, 0, 0, 0, 0, 0, 0, 0])),
        Err(DemuxError::UnknownCodec)
    );
    assert_eq!(
        EncodedAudioBuffer::try_from(MuxedAudioBuffer(vec![1, 0, 0, 31, 64, 0, 0])),
        Err(DemuxError::FrameTooShort)
    );
}

#[test]
fn demux_drain_keeps_good_frames_and_counts_bad_ones() {
    let mut demuxer = AudioDemuxer::new();
    let mut good = vec![0, 0, 0, 0x1f, 0x40];
    good.extend_from_slice(&5u64.to_be_bytes());
    good.extend_from_slice(&[9, 9]);
    demuxer.push(MuxedAudioBuffer(vec![1, 2]));
    demuxer.push(MuxedAudioBuffer(good));
    demuxer.push(MuxedAudioBuffer(vec![200; 20]));
    let out = demuxer.drain();
    assert_eq!(out.len(), 1);
    assert_eq!(out[0].header.codec, AudioCodec::Unspecified);
    assert_eq!(out[0].header.sample_rate, 8000);
    assert_eq!(out[0].start_ts, Some(ClockTime::from_nanos(5)));
    assert_eq!(out[0].data, vec![9, 9]);
    assert_eq!(demuxer.frames_too_short(), 1);
    assert_eq!(demuxer.unknown_codecs(), 1);
    assert!(demuxer.pull().is_none());
}

#[test]
fn header_parses_big_endian_rate() {
    let h = EncodedAudioHeader::try_from(&[1u8, 0, 0, 0xbb, 0x80][..]).unwrap();
    assert_eq!(h.codec, AudioCodec::Opus);
    assert_eq!(h.sample_rate, 48000);
}
