use flacenc::source::{Context, Fill};
use voiceai::audio::{
    encode_recording, frames, needs_mixdown, needs_resampling, Resampler, BLOCK_SIZE, MIN_FRAME,
    TARGET_SAMPLE_RATE,
};

fn checksum(samples: &[i16]) -> [u8; 16] {
    let wide: Vec<i32> = samples.iter().map(|&s| s as i32).collect();
    let mut context = Context::new(16, 1, 4096);
    for block in wide.chunks(4096) {
        context.fill_interleaved(block).unwrap();
    }
    context.md5_digest()
}

fn check_stream(samples: &[i16]) {
    let bytes = encode_recording(samples).unwrap();
    assert_eq!(&bytes[0..12], b"fLaC\x80\0\0\x22\x10\0\x10\0");
    let mut info = [0u8; 8];
    info.copy_from_slice(&bytes[18..26]);
    let info = u64::from_be_bytes(info);
    assert_eq!(info >> 44, 16000);
    assert_eq!((info >> 41) & 7, 0);
    assert_eq!((info >> 36) & 31, 15);
    assert_eq!(info & 0xf_ffff_ffff, samples.len() as u64);
    assert_eq!(&bytes[26..42], &checksum(samples));
    assert_eq!(&bytes[42..47], &[0xff, 0xf8, 0xc0, 0x08, 0]);
    let blocks = (samples.len() + BLOCK_SIZE - 1) / BLOCK_SIZE;
    assert!(bytes.len() >= 42 + MIN_FRAME * blocks);
    let starts = (42..bytes.len() - 3).filter(|&i| bytes[i..i + 4] == [0xff, 0xf8, 0xc0, 0x08]);
    assert!(starts.count() >= blocks);
}

#[test]
fn recordings_are_encoded() {
    check_stream(&[0]);
    check_stream(&[i16::MIN, i16::MAX, -1]);
    check_stream(&[7; 31]);
    check_stream(&[7; 33]);
    let wave: Vec<i16> = (0..20000i32).map(|i| ((i * 37) % 4001 - 2000) as i16).collect();
    check_stream(&wave[0..4096]);
    check_stream(&wave[0..4097]);
    check_stream(&wave);
}

#[test]
fn blocks_of_one_value_have_the_smallest_frames() {
    let bytes = encode_recording(&[0x0107; 3 * 4096]).unwrap();
    assert_eq!(bytes.len(), 42 + 3 * MIN_FRAME);
    for (number, frame) in bytes[42..].chunks(MIN_FRAME).enumerate() {
        assert_eq!(&frame[0..5], &[0xff, 0xf8, 0xc0, 0x08, number as u8]);
        assert_eq!(&frame[6..9], &[0, 0x01, 0x07]);
    }
}

#[test]
fn longer_recording_has_more_bytes_behind_its_description() {
    let wave: Vec<i16> = (0..20000i32).map(|i| ((i * 37) % 4001 - 2000) as i16).collect();
    let mut last = 42;
    for blocks in 1..5 {
        let bytes = encode_recording(&wave[0..blocks * BLOCK_SIZE]).unwrap();
        assert!(bytes.len() > last);
        last = bytes.len();
    }
}

#[test]
fn checksum_tells_recordings_apart() {
    let a = encode_recording(&[1, 2, 3]).unwrap();
    let b = encode_recording(&[1, 2, 4]).unwrap();
    assert_ne!(&a[26..42], &b[26..42]);
}

#[test]
fn empty_recording_is_no_bytes() {
    assert!(encode_recording(&[]).unwrap().is_empty());
}

#[test]
fn interleaved_samples_are_framed() {
    assert_eq!(frames(&[1, 2, 3, 4, 5, 6], 2), vec![vec![1, 2], vec![3, 4], vec![5, 6]]);
    assert_eq!(frames(&[1, 2, 3, 4, 5], 2), vec![vec![1, 2], vec![3, 4], vec![5]]);
    assert_eq!(frames(&[1, 2], 5), vec![vec![1, 2]]);
    assert_eq!(frames::<i32>(&[], 2), Vec::<Vec<i32>>::new());
    assert_eq!(frames(&[0.5f32, 0.25], 1), vec![vec![0.5], vec![0.25]]);
}

#[test]
fn frames_hold_the_samples() {
    let samples: Vec<u32> = (0..23).collect();
    for channels in 1..9 {
        assert_eq!(frames(&samples, channels).concat(), samples);
    }
}

#[test]
fn samples_are_picked_until_the_end() {
    let mut resampler = Resampler::new(vec![10, 11, 12, 13, 14]);
    let mut position = 0.0f64;
    while resampler.pick(position as usize) {
        position += 1.5;
    }
    assert_eq!(resampler.finish(), vec![10, 11, 13, 14]);
}

#[test]
fn formats_that_need_work() {
    assert_eq!(TARGET_SAMPLE_RATE, 16000);
    assert!(!needs_mixdown(0));
    assert!(!needs_mixdown(1));
    assert!(needs_mixdown(2));
    assert!(!needs_resampling(16000));
    assert!(needs_resampling(48000));
}
