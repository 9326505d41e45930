use rocket_core::http::Header;
use rocket_core::response::{Response, Body};
use rocket_core::transmit::{transmission_plan, chunk_bytes, BodyPlan, CHUNK_SIZE};

#[test]
fn empty_body_announces_zero_length_and_no_bytes() {
    let r = Response::new(204, Vec::new(), Body::Empty);
    let (meta, plan) = transmission_plan(r);
    assert_eq!(meta.status, 204);
    assert_eq!(meta.content_length, Some(0));
    assert!(matches!(plan, BodyPlan::NoBytes));
}

#[test]
fn sized_body_is_cut_into_full_chunks_plus_a_remainder() {
    let bytes: Vec<u8> = (0..10000u32).map(|i| (i % 251) as u8).collect();
    let r = Response::new(
        200,
        vec![Header::new("X".to_string(), "1".to_string())],
        Body::Sized(bytes.clone()),
    );
    let (meta, plan) = transmission_plan(r);
    assert_eq!(meta.content_length, Some(10000));
    assert_eq!(meta.headers.len(), 1);
    match plan {
        BodyPlan::Chunks(chunks) => {
            assert_eq!(chunks.len(), 3);
            assert_eq!(chunks[0].len(), CHUNK_SIZE);
            assert_eq!(chunks[1].len(), CHUNK_SIZE);
            assert_eq!(chunks[2].len(), 10000 - 2 * CHUNK_SIZE);
            let glued: Vec<u8> = chunks.concat();
            assert_eq!(glued, bytes);
        },
        _ => panic!("expected chunks"),
    }
}

#[test]
fn streamed_body_announces_no_length() {
    let r = Response::new(200, Vec::new(), Body::Stream(12, 2048));
    let (meta, plan) = transmission_plan(r);
    assert_eq!(meta.content_length, None);
    match plan {
        BodyPlan::Pull { stream, chunk_size } => {
            assert_eq!(stream, 12);
            assert_eq!(chunk_size, 2048);
        },
        _ => panic!("expected a pull plan"),
    }
}

#[test]
fn stripped_body_keeps_the_length_but_sends_nothing() {
    let mut r = Response::new(200, Vec::new(), Body::Sized(vec![1, 2, 3, 4]));
    r.strip_body();
    let (meta, plan) = transmission_plan(r);
    assert_eq!(meta.content_length, Some(4));
    assert!(matches!(plan, BodyPlan::NoBytes));
}

#[test]
fn chunking_an_empty_body_yields_no_chunks() {
    let out = chunk_bytes(&Vec::new(), 16);
    assert_eq!(out.len(), 0);
    let exact = chunk_bytes(&vec![1u8; 32], 16);
    assert_eq!(exact.len(), 2);
    assert_eq!(exact[0].len(), 16);
    assert_eq!(exact[1].len(), 16);
}
