use notes_orm::ids::NoteId;
use notes_orm::notes::NoteEntity;
use notes_orm::worker::{
    note_encoding_text, RecvOutcome, RequestMessage, ResponseMessage, SentenceEncoderService,
    WorkerError,
};

fn note(id: u128, title: &str, body: &str) -> NoteEntity {
    NoteEntity {
        id: NoteId { value: id },
        title: title.to_string(),
        body: body.to_string(),
        encoded: None,
    }
}

#[test]
fn three_requests_reply_in_submission_order() {
    let mut bridge = SentenceEncoderService::new(10);
    let t1 = bridge.send(RequestMessage::EncodeNote(note(1, "a", "x"))).unwrap();
    let t2 = bridge.send(RequestMessage::EncodeNote(note(2, "b", "y"))).unwrap();
    let t3 = bridge.send(RequestMessage::EncodeString("hello".to_string())).unwrap();
    assert!(t1 < t2 && t2 < t3);

    let served1 = bridge.worker_step(vec![11]).unwrap();
    let served2 = bridge.worker_step(vec![22]).unwrap();
    let served3 = bridge.worker_step(vec![33]).unwrap();
    assert_eq!(served1, t1);
    assert_eq!(served2, t2);
    assert_eq!(served3, t3);

    match bridge.take_reply(t1) {
        RecvOutcome::Ready(ResponseMessage::NoteEncoded(n)) => {
            assert_eq!(n.id, NoteId { value: 1 });
            assert_eq!(n.title, "a");
            assert_eq!(n.body, "x");
            assert_eq!(n.encoded, Some(vec![11]));
        },
        _ => panic!("the first reply must be the first note, encoded"),
    }
    match bridge.take_reply(t2) {
        RecvOutcome::Ready(ResponseMessage::NoteEncoded(n)) => {
            assert_eq!(n.id, NoteId { value: 2 });
            assert_eq!(n.encoded, Some(vec![22]));
        },
        _ => panic!("the second reply must be the second note, encoded"),
    }
    match bridge.take_reply(t3) {
        RecvOutcome::Ready(ResponseMessage::StringEncoded(v)) => {
            assert_eq!(v, vec![33]);
        },
        _ => panic!("the third reply must be the text's embedding"),
    }
}

#[test]
fn terminated_worker_does_not_leave_callers_hanging() {
    let mut bridge = SentenceEncoderService::new(10);
    let pending = bridge.send(RequestMessage::EncodeString("late".to_string())).unwrap();
    bridge.close();
    assert!(matches!(bridge.take_reply(pending), RecvOutcome::Unavailable));
    let refused = bridge.send(RequestMessage::EncodeString("more".to_string()));
    assert!(matches!(refused, Err(WorkerError::WorkerUnavailableError)));
}

#[test]
fn replies_survive_worker_termination() {
    let mut bridge = SentenceEncoderService::new(10);
    let t = bridge.send(RequestMessage::EncodeString("early".to_string())).unwrap();
    assert_eq!(bridge.worker_step(vec![7]), Some(t));
    bridge.close();
    match bridge.take_reply(t) {
        RecvOutcome::Ready(ResponseMessage::StringEncoded(v)) => assert_eq!(v, vec![7]),
        _ => panic!("a reply produced before termination must still arrive"),
    }
    assert!(matches!(bridge.take_reply(t), RecvOutcome::Unavailable));
}

#[test]
fn unserved_request_is_pending() {
    let mut bridge = SentenceEncoderService::new(10);
    let t = bridge.send(RequestMessage::EncodeString("wait".to_string())).unwrap();
    assert!(matches!(bridge.take_reply(t), RecvOutcome::Pending));
}

#[test]
fn mailbox_reports_its_space() {
    let mut bridge = SentenceEncoderService::new(2);
    assert!(bridge.has_space());
    bridge.send(RequestMessage::EncodeString("one".to_string())).unwrap();
    bridge.send(RequestMessage::EncodeString("two".to_string())).unwrap();
    assert!(!bridge.has_space());
    bridge.worker_step(vec![1]);
    assert!(bridge.has_space());
}

#[test]
fn encoding_text_lays_out_title_and_body() {
    let text = note_encoding_text(&note(1, "My Title", "My Body"));
    assert_eq!(text, "TITLE: My Title BODY: My Body");
}

#[test]
fn idle_worker_step_serves_nothing() {
    let mut bridge = SentenceEncoderService::new(3);
    assert_eq!(bridge.worker_step(vec![1]), None);
}
