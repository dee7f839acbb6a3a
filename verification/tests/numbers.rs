use esp_ds::bignum::big_number_to_words;
use esp_ds::bignum::BigNumber;
use esp_ds::montgomery::modinv_u32;
use esp_ds::montgomery::montgomery_constant;
use esp_ds::params::number_as_bytes;
use esp_ds::params::vec_to_fixed;
use esp_ds::words::bytes_to_words;
use esp_ds::words::read_word;
use esp_ds::words::to_array;
use esp_ds::words::word_to_bytes;

fn number(bytes: &[u8]) -> BigNumber {
    BigNumber {
        bytes: bytes.to_vec(),
    }
}

fn value(num: &BigNumber) -> u128 {
    num.bytes
        .iter()
        .rev()
        .fold(0u128, |acc, &b| acc * 256 + b as u128)
}

#[test]
fn words_and_bytes() {
    assert_eq!(word_to_bytes(0x0102_0304), [4, 3, 2, 1]);
    assert_eq!(read_word(&[9, 4, 3, 2, 1], 1), 0x0102_0304);
    assert_eq!(
        bytes_to_words(&[1, 0, 0, 0, 0, 0, 0, 2, 7]),
        vec![1, 0x0200_0000]
    );
    let array: [u8; 3] = to_array(&[7, 8, 9]);
    assert_eq!(array, [7, 8, 9]);
}

#[test]
fn inverses_modulo_two_to_the_32() {
    assert_eq!(modinv_u32(1), Some(1));
    assert_eq!(modinv_u32(3), Some(0xaaaa_aaab));
    assert_eq!(modinv_u32(0x0001_0001), Some(0xffff_0001));
    assert_eq!(modinv_u32(u32::MAX), Some(u32::MAX));
    for a in [5u32, 7, 0x1234_5679, 0x8000_0001, 0xdead_beef] {
        assert_eq!(a.wrapping_mul(modinv_u32(a).unwrap()), 1);
    }
    for a in [0u32, 2, 0x8000_0000, u32::MAX - 1] {
        assert_eq!(modinv_u32(a), None);
    }
}

#[test]
fn montgomery_constants() {
    assert_eq!(montgomery_constant(1), Some(u32::MAX));
    assert_eq!(montgomery_constant(3), Some(0x5555_5555));
    assert_eq!(montgomery_constant(u32::MAX), Some(1));
    assert_eq!(montgomery_constant(10), None);
    for n0 in [5u32, 0x1234_5679, 0xdead_beef] {
        let m_prime = montgomery_constant(n0).unwrap();
        assert_eq!(n0.wrapping_mul(m_prime), u32::MAX);
    }
}

#[test]
fn numbers_split_into_words() {
    assert_eq!(big_number_to_words(&number(&[])), vec![0]);
    assert_eq!(big_number_to_words(&number(&[0, 0, 0, 0, 0])), vec![0]);
    assert_eq!(big_number_to_words(&number(&[1])), vec![1]);
    assert_eq!(big_number_to_words(&number(&[1, 2, 3, 4])), vec![0x0403_0201]);
    assert_eq!(
        big_number_to_words(&number(&[0, 0, 0, 0, 5, 0, 0, 0, 0])),
        vec![0, 5]
    );
    assert_eq!(
        big_number_to_words(&number(&[1, 2, 3, 4, 5, 6])),
        vec![0x0403_0201, 0x0605]
    );
}

#[test]
fn lengths_in_bits() {
    assert_eq!(number(&[]).bits(), 0);
    assert_eq!(number(&[0, 0]).bits(), 0);
    assert_eq!(number(&[1]).bits(), 1);
    assert_eq!(number(&[0x7f]).bits(), 7);
    assert_eq!(number(&[0xff]).bits(), 8);
    assert_eq!(number(&[0, 1, 0]).bits(), 9);
    assert_eq!(BigNumber::power_of_two(3071).bits(), 3072);
    assert_eq!(BigNumber::power_of_two(100_000).bits(), 100_001);
}

#[test]
fn powers_of_two_and_remainders() {
    assert_eq!(value(&BigNumber::power_of_two(0)), 1);
    assert_eq!(value(&BigNumber::power_of_two(9)), 512);
    assert_eq!(
        value(&BigNumber::power_of_two(100).modulo(&number(&[101]))),
        (1u128 << 100) % 101
    );
    assert_eq!(value(&number(&[7]).modulo(&number(&[7, 0]))), 0);
    assert_eq!(value(&number(&[6]).modulo(&number(&[7]))), 6);
}

#[test]
fn words_are_cut_off_or_filled() {
    let fixed = vec_to_fixed(&[1, 2, 3], 96);
    assert_eq!(fixed[..4], [1, 2, 3, 0]);
    assert_eq!(fixed[95], 0);
    assert_eq!(vec_to_fixed(&[1, 2, 3], 2)[..4], [1, 2, 0, 0]);
    let long: Vec<u32> = (0..100).collect();
    assert_eq!(vec_to_fixed(&long, 96)[95], 95);
    assert_eq!(vec_to_fixed(&[], 96), [0u32; 96]);
}

#[test]
fn numbers_as_bytes() {
    let mut words = [0u32; 96];
    words[0] = 0x0403_0201;
    words[1] = 0x0807_0605;
    words[95] = 0xaabb_ccdd;
    assert_eq!(number_as_bytes(&words, 8), vec![1, 2, 3, 4, 5, 6, 7, 8]);
    assert_eq!(number_as_bytes(&words, 6), vec![1, 2, 3, 4, 0, 0]);
    assert_eq!(number_as_bytes(&words, 0), Vec::<u8>::new());
    let all = number_as_bytes(&words, 384);
    assert_eq!(all.len(), 384);
    assert_eq!(all[380..], [0xdd, 0xcc, 0xbb, 0xaa]);
    let more = number_as_bytes(&words, 390);
    assert_eq!(more[..384], all[..]);
    assert_eq!(more[384..], [0u8; 6]);
}
