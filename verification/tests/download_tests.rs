use nile_browser::download::{
    percent_of, speed_of, transfer_step, TransferAction, TransferEvent,
};
use nile_browser::session::{SessionError, SessionState};

#[test]
fn cancel_succeeds_once_then_not_found() {
    let mut s = SessionState::new();
    let (id, mut rx) = s.start_download();
    assert!(rx.try_recv().is_err(), "no signal before cancel");
    assert_eq!(s.cancel_download(&id), Ok(()));
    assert!(matches!(rx.try_recv(), Ok(())), "cancel fires the one-shot signal");
    assert_eq!(s.cancel_download(&id).err(), Some(SessionError::NotFound));
}

#[test]
fn cancel_of_unknown_or_finished_download_fails_cleanly() {
    let mut s = SessionState::new();
    assert_eq!(
        s.cancel_download(&String::from("missing")).err(),
        Some(SessionError::NotFound)
    );
    let (id, _rx) = s.start_download();
    assert!(s.finish_download(&id), "a live entry is removed on completion");
    assert!(!s.finish_download(&id), "a second terminal event finds nothing");
    assert_eq!(s.cancel_download(&id).err(), Some(SessionError::NotFound));
}

#[test]
fn cancelled_transfer_emits_one_cancelled_event_and_never_completes() {
    // A 10 MB resource arriving in 1 MB chunks, cancelled mid-transfer.
    let total: u64 = 10_000_000;
    let mut downloaded: u64 = 0;
    let mut cancelled_events = 0;
    let mut complete_events = 0;
    let mut progress_events = 0;
    let events = [
        TransferEvent::Chunk { len: 1_000_000, write_ok: true },
        TransferEvent::Chunk { len: 1_000_000, write_ok: true },
        TransferEvent::Chunk { len: 1_000_000, write_ok: true },
        TransferEvent::Cancelled,
    ];
    for ev in events {
        let step = transfer_step(downloaded, total, 1000, ev);
        downloaded = step.downloaded;
        match step.action {
            TransferAction::Progress(_) => progress_events += 1,
            TransferAction::EmitCancelled => cancelled_events += 1,
            TransferAction::EmitComplete => complete_events += 1,
            TransferAction::EmitError => {}
        }
        if step.done {
            break;
        }
    }
    assert_eq!(progress_events, 3);
    assert_eq!(cancelled_events, 1, "exactly one cancelled notification");
    assert_eq!(complete_events, 0, "no completion after a cancel");
    assert_eq!(downloaded, 3_000_000);
}

#[test]
fn transfer_step_reports_progress_with_exact_figures() {
    let step = transfer_step(4_000_000, 10_000_000, 2000, TransferEvent::Chunk {
        len: 1_000_000,
        write_ok: true,
    });
    assert!(!step.done);
    assert_eq!(step.downloaded, 5_000_000);
    match step.action {
        TransferAction::Progress(p) => {
            assert_eq!(p.downloaded, 5_000_000);
            assert_eq!(p.total, 10_000_000);
            assert_eq!(p.percent, Some(50));
            assert_eq!(p.speed, 2_500_000, "bytes per second over 2 s");
        }
        _ => panic!("a written chunk must yield a progress action"),
    }
}

#[test]
fn transfer_step_terminal_events() {
    let s1 = transfer_step(7, 0, 10, TransferEvent::StreamEnd);
    assert!(s1.done);
    assert_eq!(s1.action, TransferAction::EmitComplete);
    assert_eq!(s1.downloaded, 7);

    let s2 = transfer_step(7, 0, 10, TransferEvent::ChunkError);
    assert!(s2.done);
    assert_eq!(s2.action, TransferAction::EmitError);

    let s3 = transfer_step(7, 0, 10, TransferEvent::Chunk { len: 3, write_ok: false });
    assert!(s3.done);
    assert_eq!(s3.action, TransferAction::EmitError);

    let s4 = transfer_step(7, 0, 10, TransferEvent::Cancelled);
    assert!(s4.done);
    assert_eq!(s4.action, TransferAction::EmitCancelled);
}

#[test]
fn percent_is_indeterminate_without_a_total_and_capped_at_hundred() {
    assert_eq!(percent_of(123, 0), None);
    assert_eq!(percent_of(0, 100), Some(0));
    assert_eq!(percent_of(1, 3), Some(33));
    assert_eq!(percent_of(100, 100), Some(100));
    assert_eq!(percent_of(250, 100), Some(100));
}

#[test]
fn speed_is_bytes_per_second_and_saturates() {
    assert_eq!(speed_of(1000, 0), 0);
    assert_eq!(speed_of(1000, 2000), 500);
    assert_eq!(speed_of(3_000_000, 1500), 2_000_000);
    assert_eq!(speed_of(u64::MAX, 1), u64::MAX);
}
