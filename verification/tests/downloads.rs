use psyche::download_progress::{step_for_time, Download, ProgressEvent};

#[test]
fn download_progress_is_reported() {
    let mut d = Download::new([1u8; 32], "abc".to_string());
    assert!(d.handle_progress(ProgressEvent::Connected).is_none());
    let found = d.handle_progress(ProgressEvent::Found(100)).unwrap();
    assert_eq!((found.downloaded_size_delta, found.downloaded_size, found.total_size), (0, 0, 100));
    assert_eq!(d.total_size, 100);
    let p = d.handle_progress(ProgressEvent::Progress(40)).unwrap();
    assert_eq!((p.downloaded_size_delta, p.downloaded_size, p.total_size), (40, 40, 100));
    assert!(!p.is_done());
    let p2 = d.handle_progress(ProgressEvent::Progress(70)).unwrap();
    assert_eq!(p2.downloaded_size_delta, 30);
    let done = d.handle_progress(ProgressEvent::AllDone).unwrap();
    assert_eq!((done.downloaded_size, done.total_size), (100, 100));
    assert!(done.is_done());
    assert_eq!(done.hash, "abc");
    let abort = d.handle_progress(ProgressEvent::Abort).unwrap();
    assert_eq!((abort.downloaded_size, abort.total_size), (0, 0));
    let local = d.handle_progress(ProgressEvent::FoundLocal(9)).unwrap();
    assert_eq!((local.downloaded_size, local.total_size), (9, 9));
}

#[test]
fn bandwidth_test_steps() {
    assert_eq!(step_for_time(13), 1);
    assert_eq!(step_for_time(12), 0);
    assert_eq!(step_for_time(28), 2);
}
