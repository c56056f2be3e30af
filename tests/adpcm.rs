use ruffle_core::{AdpcmDecoder, Error};

fn decode(data: &[u8], is_stereo: bool) -> Vec<i16> {
    AdpcmDecoder::new(data.to_vec(), is_stereo, 44100).unwrap().into_samples()
}

fn pull_all(decoder: &mut AdpcmDecoder) -> Vec<i16> {
    let mut out = Vec::new();
    while let Some(s) = decoder.next() {
        out.push(s);
    }
    out
}

#[test]
fn golden_vector_4_bit_mono() {
    // Size code 2 (4-bit codes), header sample 0 and step index 0, then the
    // codes 7, 7, 7, 3, F, 8, 0, C, 5, B.
    let data = [128u8, 0, 0, 119, 115, 248, 12, 91];
    assert_eq!(decode(&data, false), vec![13, 43, 106, 169, 46, 29, 45, -87, 109, -73]);
}

#[test]
fn first_code_of_golden_vector() {
    // Magnitude 7, step 7, sign mask 8: delta (2*7+1)*7/8 = 13; then the code 0
    // at step index 8 (step 16) adds 16/8 = 2.
    let data = [128u8, 0, 0, 112];
    assert_eq!(decode(&data, false), vec![13, 15]);
}

#[test]
fn single_five_bit_code() {
    // Size code 3, a zero header, the code 00111, then 3 bits too few for a code.
    // Sign mask 16: delta (2*7+1)*7/16 = 6.
    let data = [192u8, 0, 0, 56];
    assert_eq!(decode(&data, false), vec![6]);
}

#[test]
fn random_mono_4_bit_with_lower_clamp() {
    let data = [
        165u8, 77, 202, 24, 37, 48, 187, 29, 109, 19, 44, 222, 214, 35, 123, 46, 217, 30, 63, 114,
        31, 203, 25, 113,
    ];
    let expected: Vec<i16> = vec![
        -27330, -27332, -27322, -27303, -27285, -27283, -27297, -27311, -27306, -27323, -27293,
        -27339, -27321, -27282, -27257, -27298, -27359, -27466, -27628, -27347, -27156, -26912,
        -26438, -26914, -26606, -27335, -28429, -28866, -28469, -30033, -28540, -31450, -25212,
        -20755, -18324, -29375, -32768, -32768, -27556, -32294, -10756, -1523,
    ];
    assert_eq!(decode(&data, false), expected);
}

#[test]
fn random_stereo_4_bit_interleaves_left_then_right() {
    let data = [
        165u8, 77, 202, 24, 37, 48, 187, 29, 109, 19, 44, 222, 214, 35, 123, 46, 217, 30, 63, 114,
        31, 203, 25, 113,
    ];
    let expected: Vec<i16> = vec![
        -27326, 6144, -27345, 6220, -27317, 6143, -27283, 6233, -27324, 6149, -27285, 6314, -27320,
        6575, -27324, 6541, -27370, 6130, -27426, 5738, -27478, 6401, -27417, 7758, -27425, 4848,
        -27507, 1106, -27518, 8654, -27668, 14047, -27862, 26795, -27575, 11159,
    ];
    assert_eq!(decode(&data, true), expected);
}

const TWO_BIT: [u8; 20] =
    [39, 238, 231, 97, 94, 243, 95, 48, 228, 155, 72, 46, 21, 202, 231, 80, 7, 32, 30, 18];
const THREE_BIT: [u8; 20] =
    [114, 137, 179, 73, 195, 5, 191, 247, 140, 235, 116, 0, 74, 225, 188, 83, 173, 107, 30, 102];
const FIVE_BIT: [u8; 20] =
    [246, 126, 138, 130, 149, 37, 230, 155, 238, 203, 201, 60, 134, 114, 161, 183, 133, 184, 76, 82];

#[test]
fn two_bit_stereo() {
    let expected: Vec<i16> = vec![
        -25105, 28334, -24549, 24211, -25222, 25874, -26038, 27386, -25709, 23263, -26008, 28253,
        -25736, 26240, -24995, 24410, -25892, 29400, -25530, 27387, -25201, 29217, -25500, 24227,
        -25772, 26240, -25031, 31730, -24134, 25088, -23772, 22409, -24101, 15103, -24400, 23944,
        -25216, 32767, -24229, 32767, -23831, 32767, -23469, 32767, -24456, 32767, -24854, 32767,
        -24492, 32767, -23505, 23041, -23903, 26963, -22817, 30529,
    ];
    assert_eq!(decode(&TWO_BIT, true), expected);
}

#[test]
fn two_bit_mono_length() {
    // 2 size bits and a 22-bit header leave 136 bits: 68 codes.
    assert_eq!(decode(&TWO_BIT, false).len(), 68);
}

#[test]
fn three_bit_mono_clamps_both_ways() {
    let expected: Vec<i16> = vec![
        -12583, -11126, -8657, -9173, -7765, -8191, -7803, -8861, -9822, -11862, -14849, -19222,
        -12817, -19514, -14651, -16124, -25500, -15694, -27560, -32768, -11746, -6659, -2034, 2170,
        21281, 32767, 15979, -9458, -3303, -31284, -32768, -32768, 4474, -3717, -32768, 8190,
        -32768, -32768, -32768, 14632, 22823, -29316, -32768, -32768, 24574,
    ];
    assert_eq!(decode(&THREE_BIT, false), expected);
}

#[test]
fn three_bit_stereo() {
    let expected: Vec<i16> = vec![
        -12101, 18897, -14570, 18876, -17152, 18847, -17776, 18890, -16072, 18844, -17621, 18811,
        -19968, 18801, -19400, 18810, -18884, 18802, -20292, 18856, -20718, 18889, -21882, 18818,
        -21530, 18773, -20569, 18705, -21443, 18656, -19588, 18731, -21528, 18785, -24814, 18834,
        -25501, 18759,
    ];
    assert_eq!(decode(&THREE_BIT, true), expected);
}

#[test]
fn five_bit_mono() {
    let expected: Vec<i16> = vec![
        -9735, -9713, -9681, -9692, -9644, -9715, -9756, -9850, -10049, -10490, -10116, -10887,
        -11218, -9353, -6863, -3592, 3041, 19624, 18468, -5707, 32767, 32767, 32767, -2047, 32767,
        26624, 32767,
    ];
    assert_eq!(decode(&FIVE_BIT, false), expected);
}

#[test]
fn five_bit_stereo() {
    let expected: Vec<i16> = vec![
        -9698, -32094, -9736, -32063, -9811, -31949, -9879, -31998, -9801, -32221, -9806, -32585,
        -9892, -32099, -9854, -31181, -9979, -30211, -10141, -29971, -10014, -29170,
    ];
    assert_eq!(decode(&FIVE_BIT, true), expected);
}

#[test]
fn fresh_decoders_agree() {
    let first = decode(&THREE_BIT, true);
    let second = decode(&THREE_BIT, true);
    assert_eq!(first, second);
    let mut a = AdpcmDecoder::new(FIVE_BIT.to_vec(), false, 11025).unwrap();
    let mut b = AdpcmDecoder::new(FIVE_BIT.to_vec(), false, 22050).unwrap();
    assert_eq!(pull_all(&mut a), pull_all(&mut b));
}

#[test]
fn empty_source_is_end_of_stream() {
    assert!(matches!(AdpcmDecoder::new(Vec::new(), false, 44100), Err(Error::EndOfStream)));
}

#[test]
fn header_without_codes_yields_nothing() {
    // Size code and a complete header, but no room for a code.
    let data = [128u8, 0, 0];
    assert_eq!(decode(&data, false), Vec::<i16>::new());
}

#[test]
fn exhausted_decoder_stays_exhausted() {
    let mut decoder = AdpcmDecoder::new(vec![192u8, 0, 0, 56], false, 8000).unwrap();
    assert_eq!(decoder.next(), Some(6));
    assert_eq!(decoder.next(), None);
    assert_eq!(decoder.next(), None);
}

#[test]
fn next_sample_reports_end_of_stream() {
    let mut decoder = AdpcmDecoder::new(vec![192u8, 0, 0, 56], false, 8000).unwrap();
    assert_eq!(decoder.next_sample(), Ok(()));
    assert_eq!(decoder.next_sample(), Err(Error::EndOfStream));
}

#[test]
fn channel_count_and_rate() {
    let mono = AdpcmDecoder::new(vec![0u8], false, 5512).unwrap();
    let stereo = AdpcmDecoder::new(vec![0u8], true, 44100).unwrap();
    assert_eq!(mono.num_channels(), 1);
    assert_eq!(stereo.num_channels(), 2);
    assert_eq!(mono.sample_rate(), 5512);
    assert_eq!(stereo.sample_rate(), 44100);
}

fn pack(bits: &str) -> Vec<u8> {
    let mut bytes = Vec::new();
    let mut current = 0u8;
    let mut filled = 0;
    for c in bits.chars() {
        current = (current << 1) | u8::from(c == '1');
        filled += 1;
        if filled == 8 {
            bytes.push(current);
            current = 0;
            filled = 0;
        }
    }
    if filled > 0 {
        bytes.push(current << (8 - filled));
    }
    bytes
}

#[test]
fn header_is_read_again_after_a_full_block() {
    // 2-bit codes; a header (100, 0), 4095 codes 00 that each add 3, then a
    // second header (-5, 10) and the codes 01 and 11.
    let mut bits = String::from("00");
    bits.push_str(&format!("{:016b}{:06b}", 100u16, 0));
    for _ in 0..4095 {
        bits.push_str("00");
    }
    bits.push_str(&format!("{:016b}{:06b}", -5i16 as u16, 10));
    bits.push_str("0111");
    let out = decode(&pack(&bits), false);
    assert_eq!(out.len(), 4097);
    assert_eq!(&out[..3], &[103, 106, 109]);
    assert_eq!(&out[4094..], &[12385, 23, -11]);
}
