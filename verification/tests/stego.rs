//! Tests of the LSB steganography codec.

use liberty_crypto::keys::CryptoError;
use liberty_crypto::steganography::Steganography;
use rand::Rng;

#[test]
fn test_lsb_encode_decode() {
    let width = 100;
    let height = 100;
    let mut cover_image = vec![0u8; width * height * 3];

    let mut rng = rand::thread_rng();
    for byte in &mut cover_image {
        *byte = rng.gen();
    }

    let message = b"Hello, Liberty Reach! This is a secret message.";

    let stego_image = Steganography::encode_lsb(&cover_image, width, height, message).unwrap();

    assert_ne!(cover_image, stego_image);

    let decoded = Steganography::decode_lsb(&stego_image, width, height).unwrap();

    assert_eq!(message.to_vec(), decoded);
}

#[test]
fn test_max_capacity() {
    let capacity = Steganography::max_capacity(1920, 1080);
    assert_eq!(capacity, 777600);
}

#[test]
fn test_message_too_large() {
    let width = 10;
    let height = 10;
    let cover_image = vec![0u8; width * height * 3];
    let message = vec![0u8; 1000];

    let result = Steganography::encode_lsb(&cover_image, width, height, &message);
    assert!(result.is_err());
}

#[test]
fn test_stego_round_trip_with_random_cover() {
    let width = 100;
    let height = 100;
    let cover = liberty_crypto::utils::random_vec(width * height * 3);
    let payload = b"Hello, Liberty Reach!";

    let stego = Steganography::encode_lsb(&cover, width, height, payload).unwrap();
    assert_eq!(
        Steganography::decode_lsb(&stego, width, height).unwrap(),
        payload.to_vec()
    );

    // A payload of the full raster size cannot fit.
    let oversize = vec![0u8; 30000];
    assert!(matches!(
        Steganography::encode_lsb(&cover, width, height, &oversize).unwrap_err(),
        CryptoError::Encryption(_)
    ));
}

#[test]
fn test_stego_closeness() {
    let width = 20;
    let height = 20;
    let cover = liberty_crypto::utils::random_vec(width * height * 3);
    let stego = Steganography::encode_lsb(&cover, width, height, b"hi").unwrap();
    assert_eq!(stego.len(), cover.len());
    for (a, b) in cover.iter().zip(stego.iter()) {
        let d = (*a as i16) - (*b as i16);
        assert!(-1 <= d && d <= 1);
    }
}

#[test]
fn test_stego_capacity_edge() {
    // An 8x2 raster carries 6 bytes, of which 4 are the length header.
    let width = 8;
    let height = 2;
    let cover = vec![0u8; width * height * 3];
    // Capacity is 6 bytes; 2 payload bytes fit, 3 do not.
    let ok = Steganography::encode_lsb(&cover, width, height, b"ab");
    assert!(ok.is_ok());
    let too_big = Steganography::encode_lsb(&cover, width, height, b"abc");
    assert!(too_big.is_err());

    // A raster too small for the header cannot be decoded.
    let tiny = vec![0u8; 3];
    assert!(matches!(
        Steganography::decode_lsb(&tiny, 1, 1).unwrap_err(),
        CryptoError::Decryption(_)
    ));
}
