use aes::Aes128;
use cbc::Encryptor;
use cipher::{block_padding::Pkcs7, BlockEncryptMut, KeyIvInit};
use m3u8_core::crypto::{DecryptError, EncryptionInfo};
use m3u8_core::download::{
    accept_chunk, conclude_fetch, conclude_response, content_is_markup, preprocess_headers,
    settle_fetch, should_skip, DownloadOptions, FetchFault, FetchVerdict,
};
use m3u8_core::download_monitor::DownloadMetrics;

fn pair(a: &str, b: &str) -> (String, String) {
    (a.to_string(), b.to_string())
}

#[test]
fn new_options_have_no_headers() {
    assert!(DownloadOptions::new().headers.is_empty());
}

#[test]
fn well_formed_headers_are_kept_in_order() {
    let headers = vec![
        pair("Referer", "https://example.com/"),
        pair("User-Agent", "Mozilla/5.0 (X11; Linux)"),
        pair("x-token", "abc\tdef"),
    ];
    assert_eq!(preprocess_headers(&headers), headers);
}

#[test]
fn header_with_bad_name_is_dropped() {
    let headers = vec![
        pair("Bad Name", "v"),
        pair("", "v"),
        pair("Good", "v"),
        pair("na:me", "v"),
        pair("näme", "v"),
        pair("a(b)", "v"),
    ];
    assert_eq!(preprocess_headers(&headers), vec![pair("Good", "v")]);
}

#[test]
fn header_with_bad_value_is_dropped() {
    let headers = vec![
        pair("A", "line\nbreak"),
        pair("B", "ok"),
        pair("C", "del\u{7f}"),
        pair("D", "nul\u{0}"),
        pair("E", "ünïcode is sent as bytes"),
        pair("F", ""),
    ];
    assert_eq!(
        preprocess_headers(&headers),
        vec![pair("B", "ok"), pair("E", "ünïcode is sent as bytes"), pair("F", "")]
    );
}

#[test]
fn every_token_character_may_stand_in_a_name() {
    let headers = vec![pair("!#$%&'*+-.^_`|~09AZaz", "v")];
    assert_eq!(preprocess_headers(&headers), headers);
    for c in "\"(),/:;<=>?@[\\]{} ".chars() {
        assert!(preprocess_headers(&vec![pair(&format!("a{}b", c), "v")]).is_empty());
    }
}

#[test]
fn name_longer_than_the_limit_is_dropped() {
    let long = "a".repeat(65535);
    let too_long = "a".repeat(65536);
    assert_eq!(preprocess_headers(&vec![pair(&long, "v")]).len(), 1);
    assert!(preprocess_headers(&vec![pair(&too_long, "v")]).is_empty());
}

#[test]
fn chunk_is_added_and_counted() {
    let mut body = vec![1u8, 2];
    let mut metrics = DownloadMetrics::new(1);
    assert!(accept_chunk(&mut body, &[3, 4, 5], false, &mut metrics, 1000));
    assert_eq!(body, vec![1, 2, 3, 4, 5]);
    assert_eq!(metrics.downloaded_bytes(), 3);
    assert_eq!(metrics.sample_count(), 1);
    assert_eq!(metrics.completed_chunks(), 0);
}

#[test]
fn chunk_after_cancellation_is_dropped() {
    let mut body = vec![1u8, 2];
    let mut metrics = DownloadMetrics::new(1);
    assert!(!accept_chunk(&mut body, &[3, 4, 5], true, &mut metrics, 1000));
    assert_eq!(body, vec![1, 2]);
    assert_eq!(metrics.downloaded_bytes(), 0);
    assert_eq!(metrics.sample_count(), 0);
}

#[test]
fn html_page_is_markup() {
    assert!(content_is_markup("text/html; charset=utf-8"));
    assert!(content_is_markup("text/html"));
    assert!(content_is_markup("application/xml"));
    assert!(content_is_markup("application/xhtml+xml"));
    assert!(!content_is_markup("video/mp2t"));
    assert!(!content_is_markup("application/octet-stream"));
    assert!(!content_is_markup(""));
    assert!(!content_is_markup(" text/html"));
    assert!(!content_is_markup("TEXT/HTML"));
}

#[test]
fn html_response_is_skipped() {
    let r = conclude_fetch(b"<html>".to_vec(), "text/html; charset=utf-8", None, 0);
    assert_eq!(r, Ok(FetchVerdict::Skip));
}

#[test]
fn empty_response_is_skipped() {
    assert_eq!(conclude_fetch(vec![], "video/mp2t", None, 0), Ok(FetchVerdict::Skip));
    let e = EncryptionInfo::new([0u8; 16], None);
    assert_eq!(conclude_fetch(vec![], "video/mp2t", Some(&e), 0), Ok(FetchVerdict::Skip));
}

#[test]
fn plain_segment_is_written_as_it_came() {
    let body = vec![0x47u8; 188];
    assert_eq!(
        conclude_fetch(body.clone(), "video/mp2t", None, 3),
        Ok(FetchVerdict::Write(body.clone()))
    );
    assert_eq!(conclude_fetch(body.clone(), "", None, 3), Ok(FetchVerdict::Write(body)));
}

#[test]
fn encrypted_segment_is_written_decrypted() {
    let key = [0x0fu8; 16];
    let iv = [0, 0, 0, 0, 0, 0, 0, 0, 0, 0, 0, 0, 0, 0, 0, 5];
    let plain = vec![0x47u8; 188];
    let body = Encryptor::<Aes128>::new((&key).into(), (&iv).into())
        .encrypt_padded_vec_mut::<Pkcs7>(&plain);
    let e = EncryptionInfo::new(key, None);
    assert_eq!(
        conclude_fetch(body.clone(), "video/mp2t", Some(&e), 5),
        Ok(FetchVerdict::Write(plain))
    );
    assert_ne!(
        conclude_fetch(body.clone(), "video/mp2t", Some(&e), 4),
        Ok(FetchVerdict::Write(vec![0x47u8; 188]))
    );
}

#[test]
fn body_that_cannot_be_decrypted_is_a_fault() {
    let e = EncryptionInfo::new([1u8; 16], None);
    assert_eq!(conclude_fetch(vec![1u8; 10], "video/mp2t", Some(&e), 0), Err(DecryptError));
}

#[test]
fn empty_body_or_markup_is_no_segment() {
    assert!(should_skip(&[], "video/mp2t"));
    assert!(should_skip(&[1, 2, 3], "text/html"));
    assert!(should_skip(&[1, 2, 3], "text/xml"));
    assert!(!should_skip(&[1, 2, 3], "video/mp2t"));
    assert!(!should_skip(&[0], ""));
}

#[test]
fn body_without_key_is_written_as_it_came() {
    assert_eq!(settle_fetch(vec![1, 2, 3], None), Ok(FetchVerdict::Write(vec![1, 2, 3])));
}

#[test]
fn decrypted_bytes_are_written_in_place_of_the_body() {
    assert_eq!(
        settle_fetch(vec![1, 2, 3], Some(Ok(vec![9, 8]))),
        Ok(FetchVerdict::Write(vec![9, 8]))
    );
    assert_eq!(settle_fetch(vec![1, 2, 3], Some(Ok(vec![]))), Ok(FetchVerdict::Write(vec![])));
}

#[test]
fn fault_of_the_decryption_is_handed_on() {
    assert_eq!(settle_fetch(vec![1, 2, 3], Some(Err(DecryptError))), Err(DecryptError));
}

#[test]
fn key_bound_body_that_is_not_whole_blocks_is_a_fault() {
    let e = EncryptionInfo::new([2u8; 16], None);
    for len in [1usize, 15, 17, 31, 100] {
        assert_eq!(
            conclude_fetch(vec![7u8; len], "video/mp2t", Some(&e), 0),
            Err(DecryptError),
            "length {}",
            len
        );
    }
}

#[test]
fn segment_that_decrypts_to_nothing_is_skipped() {
    let key = [0x0fu8; 16];
    let iv = [1u8; 16];
    let body = Encryptor::<Aes128>::new((&key).into(), (&iv).into())
        .encrypt_padded_vec_mut::<Pkcs7>(&[]);
    assert_eq!(body.len(), 16);
    let e = EncryptionInfo::new(key, Some(iv));
    assert_eq!(conclude_fetch(body, "video/mp2t", Some(&e), 0), Ok(FetchVerdict::Skip));
}

#[test]
fn nothing_empty_is_ever_written() {
    let key = [0x0fu8; 16];
    let e = EncryptionInfo::new(key, None);
    for n in 0..40usize {
        let plain = vec![0x47u8; n];
        let iv = [0, 0, 0, 0, 0, 0, 0, 0, 0, 0, 0, 0, 0, 0, 0, 3];
        let body = Encryptor::<Aes128>::new((&key).into(), (&iv).into())
            .encrypt_padded_vec_mut::<Pkcs7>(&plain);
        match conclude_fetch(body, "video/mp2t", Some(&e), 3) {
            Ok(FetchVerdict::Write(data)) => {
                assert!(!data.is_empty());
                assert_eq!(data, plain);
            }
            Ok(FetchVerdict::Skip) => assert_eq!(n, 0),
            Err(fault) => panic!("unexpected fault {:?}", fault),
        }
        match conclude_fetch(plain.clone(), "video/mp2t", None, 3) {
            Ok(FetchVerdict::Write(data)) => assert_eq!(data, plain),
            Ok(FetchVerdict::Skip) => assert_eq!(n, 0),
            Err(fault) => panic!("unexpected fault {:?}", fault),
        }
    }
}

#[test]
fn failure_status_is_a_fault_whatever_the_body_holds() {
    for status in [199u16, 300, 301, 403, 404, 500, 503] {
        assert_eq!(
            conclude_response(status, vec![0x47u8; 188], "video/mp2t", None, 0),
            Err(FetchFault::Status(status))
        );
        assert_eq!(
            conclude_response(status, vec![], "text/html", None, 0),
            Err(FetchFault::Status(status))
        );
    }
}

#[test]
fn success_status_comes_to_what_the_body_comes_to() {
    let body = vec![0x47u8; 188];
    for status in [200u16, 206, 299] {
        assert_eq!(
            conclude_response(status, body.clone(), "video/mp2t", None, 0),
            Ok(FetchVerdict::Write(body.clone()))
        );
        assert_eq!(
            conclude_response(status, vec![], "video/mp2t", None, 0),
            Ok(FetchVerdict::Skip)
        );
        assert_eq!(
            conclude_response(status, body.clone(), "text/html; charset=utf-8", None, 0),
            Ok(FetchVerdict::Skip)
        );
    }
    let e = EncryptionInfo::new([1u8; 16], None);
    assert_eq!(
        conclude_response(200, vec![1u8; 10], "video/mp2t", Some(&e), 0),
        Err(FetchFault::Decrypt)
    );
}
