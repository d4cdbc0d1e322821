use lz::options::ListOptions;
use lz::watch::{list_path, WatchStep, WATCH_INTERVAL_SECS};

fn options(watch: bool, json: bool) -> ListOptions {
    let mut options = ListOptions::default();
    options.watch = watch;
    options.json = json;
    options
}

#[test]
fn a_single_listing_renders_and_stops() {
    for json in [false, true] {
        let o = options(false, json);
        assert_eq!(list_path(&o, None, true), WatchStep::Render);
        assert_eq!(list_path(&o, Some(WatchStep::Render), true), WatchStep::Stop);
        assert_eq!(list_path(&o, Some(WatchStep::Render), false), WatchStep::Stop);
    }
}

#[test]
fn watching_text_clears_renders_and_sleeps() {
    let o = options(true, false);
    assert_eq!(list_path(&o, None, true), WatchStep::Clear);
    assert_eq!(list_path(&o, Some(WatchStep::Clear), true), WatchStep::Render);
    assert_eq!(list_path(&o, Some(WatchStep::Render), true), WatchStep::Sleep { seconds: 2 });
    assert_eq!(list_path(&o, Some(WatchStep::Sleep { seconds: 2 }), true), WatchStep::Clear);
    assert_eq!(WATCH_INTERVAL_SECS, 2);
}

#[test]
fn watching_records_renders_flushes_and_sleeps() {
    let o = options(true, true);
    assert_eq!(list_path(&o, None, true), WatchStep::Render);
    assert_eq!(list_path(&o, Some(WatchStep::Render), true), WatchStep::Flush);
    assert_eq!(list_path(&o, Some(WatchStep::Flush), true), WatchStep::Sleep { seconds: 2 });
    assert_eq!(list_path(&o, Some(WatchStep::Sleep { seconds: 2 }), true), WatchStep::Render);
}

#[test]
fn a_failed_listing_is_reported_and_the_watch_goes_on() {
    for json in [false, true] {
        let o = options(true, json);
        assert_eq!(list_path(&o, Some(WatchStep::Render), false), WatchStep::Report);
        let after = list_path(&o, Some(WatchStep::Report), true);
        assert_eq!(after, if json { WatchStep::Flush } else { WatchStep::Sleep { seconds: 2 } });
        let mut step = after;
        let mut rounds = 0;
        while step != WatchStep::Render {
            step = list_path(&o, Some(step), true);
            rounds += 1;
            assert!(rounds < 5);
        }
    }
}

#[test]
fn only_the_terminal_can_end_the_watch() {
    let o = options(true, true);
    assert_eq!(list_path(&o, Some(WatchStep::Clear), false), WatchStep::Stop);
    assert_eq!(list_path(&o, Some(WatchStep::Report), false), WatchStep::Stop);
    assert_eq!(list_path(&o, Some(WatchStep::Flush), false), WatchStep::Stop);
    assert_eq!(list_path(&o, Some(WatchStep::Stop), true), WatchStep::Stop);
    assert_ne!(list_path(&o, Some(WatchStep::Sleep { seconds: 2 }), false), WatchStep::Stop);
}
