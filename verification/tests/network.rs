use vertx::network::api::{EventHandler, EventWriter, Method, Response};

#[test]
fn method_names() {
    assert_eq!(Method::Get.as_bytes(), b"GET");
    assert_eq!(Method::Options.as_bytes(), b"OPTIONS");
    assert_eq!(Method::try_from("pAtCh"), Ok(Method::Patch));
    assert_eq!(Method::try_from("DELETE"), Ok(Method::Delete));
    assert_eq!(Method::try_from("FETCH"), Err(()));
    assert_eq!(Method::try_from(""), Err(()));
}

#[test]
fn binary_response() {
    match Response::<u8>::binary(&[1, 2, 3]).into_owned() {
        Response::Success(Some(body)) => {
            assert_eq!(body.mime, b"application/octet-stream".to_vec());
            assert_eq!(body.body, vec![1, 2, 3]);
        }
        _ => panic!(),
    }
}

#[test]
fn event_stream_framing() {
    let mut writer = EventWriter { out: Vec::new() };
    writer.send(b"a\nbc").unwrap();
    assert_eq!(writer.out, b"data:a\ndata:bc\n".to_vec());
    writer.out.clear();
    writer.send_named(b"status", b"1").unwrap();
    assert_eq!(writer.out, b"event:status\ndata:1\n".to_vec());
    writer.out.clear();
    writer.send(b"").unwrap();
    assert_eq!(writer.out, b"data:\n".to_vec());
    writer.out.clear();
    writer.send(b"x\n").unwrap();
    assert_eq!(writer.out, b"data:x\ndata:\n".to_vec());
}
