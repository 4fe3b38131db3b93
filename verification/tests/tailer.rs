use authmap::tailer::{Action, FileIdentity, FileStat, OpenError, Phase, Tailer, LINE_BREAK};

fn stat(inode: u64, size: u64) -> FileStat {
    FileStat { identity: FileIdentity { device: 1, inode }, size }
}

fn lines(texts: &[&str]) -> Vec<Vec<u8>> {
    texts.iter().map(|text| text.as_bytes().to_vec()).collect()
}

fn fresh() -> Tailer {
    Tailer::register(Some(stat(7, 0))).expect("a tailer")
}

#[test]
fn register_starts_at_the_end() {
    let tailer = Tailer::register(Some(stat(7, 1234))).expect("a tailer");
    assert_eq!(tailer.phase(), Phase::Following);
    assert_eq!(tailer.identity(), FileIdentity { device: 1, inode: 7 });
    assert_eq!(tailer.offset(), 1234);
    assert_eq!(tailer.pending_len(), 0);
}

#[test]
fn register_fails_without_a_file() {
    assert!(matches!(Tailer::register(None), Err(OpenError)));
}

#[test]
fn poll_waits_reads_or_reopens() {
    let mut tailer = Tailer::register(Some(stat(7, 100))).expect("a tailer");
    assert_eq!(tailer.poll(Some(stat(7, 100))), Action::Wait);
    assert_eq!(tailer.phase(), Phase::Following);
    assert_eq!(tailer.poll(Some(stat(7, 160))), Action::Read { offset: 100, len: 60 });
    assert_eq!(tailer.phase(), Phase::Following);
    assert_eq!(tailer.offset(), 100);
    assert_eq!(tailer.poll(Some(stat(7, 99))), Action::Reopen);
    assert_eq!(tailer.phase(), Phase::Rotated);
    assert_eq!(tailer.poll(Some(stat(7, 160))), Action::Reopen);
    assert_eq!(tailer.phase(), Phase::Rotated);
}

#[test]
fn poll_sees_another_file() {
    let mut tailer = Tailer::register(Some(stat(7, 100))).expect("a tailer");
    assert_eq!(tailer.poll(Some(stat(8, 500))), Action::Reopen);
    assert_eq!(tailer.phase(), Phase::Rotated);
    let mut tailer = Tailer::register(Some(stat(7, 100))).expect("a tailer");
    let elsewhere = FileStat { identity: FileIdentity { device: 2, inode: 7 }, size: 100 };
    assert_eq!(tailer.poll(Some(elsewhere)), Action::Reopen);
    let mut tailer = Tailer::register(Some(stat(7, 100))).expect("a tailer");
    assert_eq!(tailer.poll(None), Action::Reopen);
    assert_eq!(tailer.phase(), Phase::Rotated);
}

#[test]
fn feed_hands_out_complete_lines() {
    let mut tailer = fresh();
    assert_eq!(tailer.feed(b"one\ntwo\nthr"), lines(&["one", "two"]));
    assert_eq!(tailer.offset(), 11);
    assert_eq!(tailer.pending_len(), 3);
    assert_eq!(tailer.feed(b"ee"), lines(&[]));
    assert_eq!(tailer.pending_len(), 5);
    assert_eq!(tailer.feed(b"\n"), lines(&["three"]));
    assert_eq!(tailer.pending_len(), 0);
    assert_eq!(tailer.feed(b"\n\nx\n"), lines(&["", "", "x"]));
    assert_eq!(tailer.feed(b""), lines(&[]));
    assert_eq!(tailer.offset(), 18);
    assert_eq!(LINE_BREAK, b'\n');
}

#[test]
fn feed_keeps_carriage_returns() {
    let mut tailer = fresh();
    assert_eq!(tailer.feed(b"a\r\nb\r\n"), lines(&["a\r", "b\r"]));
}

#[test]
fn chunking_makes_no_difference() {
    let content = b"alpha\nbeta\n\ngamma delta\nepsilon";
    let mut whole = fresh();
    let expected = whole.feed(content);
    assert_eq!(expected, lines(&["alpha", "beta", "", "gamma delta"]));
    for cut in 0..=content.len() {
        let mut tailer = fresh();
        let mut got = tailer.feed(&content[..cut]);
        got.extend(tailer.feed(&content[cut..]));
        assert_eq!(got, expected, "cut at {}", cut);
        assert_eq!(tailer.offset(), whole.offset());
        assert_eq!(tailer.pending_len(), whole.pending_len());
    }
    let mut tailer = fresh();
    let mut got = Vec::new();
    for byte in content.iter() {
        got.extend(tailer.feed(&[*byte]));
    }
    assert_eq!(got, expected);
}

#[test]
fn lines_are_delivered_once_across_rotation() {
    let mut tailer = Tailer::register(Some(stat(7, 40))).expect("a tailer");
    let mut delivered = Vec::new();

    assert_eq!(tailer.poll(Some(stat(7, 52))), Action::Read { offset: 40, len: 12 });
    delivered.extend(tailer.feed(b"old 1\nold 2\n"));
    assert_eq!(tailer.offset(), 52);
    assert_eq!(tailer.poll(Some(stat(7, 52))), Action::Wait);

    assert_eq!(tailer.poll(Some(stat(8, 6))), Action::Reopen);
    delivered.extend(tailer.feed(b"stale\n"));
    assert_eq!(tailer.offset(), 52);
    assert_eq!(tailer.reopen(Some(stat(8, 6))), Ok(()));
    assert_eq!(tailer.phase(), Phase::Following);
    assert_eq!(tailer.identity(), FileIdentity { device: 1, inode: 8 });
    assert_eq!(tailer.offset(), 0);

    assert_eq!(tailer.poll(Some(stat(8, 6))), Action::Read { offset: 0, len: 6 });
    delivered.extend(tailer.feed(b"new 1\n"));
    assert_eq!(tailer.poll(Some(stat(8, 15))), Action::Read { offset: 6, len: 9 });
    delivered.extend(tailer.feed(b"new 2\nnew"));
    assert_eq!(tailer.poll(Some(stat(8, 15))), Action::Wait);

    assert_eq!(delivered, lines(&["old 1", "old 2", "new 1", "new 2"]));
    assert_eq!(tailer.pending_len(), 3);
    assert_eq!(tailer.offset(), 15);
}

#[test]
fn truncation_starts_over() {
    let mut tailer = Tailer::register(Some(stat(7, 0))).expect("a tailer");
    assert_eq!(tailer.feed(b"a\nb\nhalf"), lines(&["a", "b"]));
    assert_eq!(tailer.poll(Some(stat(7, 2))), Action::Reopen);
    assert_eq!(tailer.reopen(Some(stat(7, 2))), Ok(()));
    assert_eq!(tailer.pending_len(), 0);
    assert_eq!(tailer.poll(Some(stat(7, 2))), Action::Read { offset: 0, len: 2 });
    assert_eq!(tailer.feed(b"c\n"), lines(&["c"]));
}

#[test]
fn reopen_leaves_a_followed_file_alone() {
    let mut tailer = Tailer::register(Some(stat(7, 0))).expect("a tailer");
    assert_eq!(tailer.feed(b"a\nhalf"), lines(&["a"]));
    assert_eq!(tailer.reopen(Some(stat(8, 0))), Ok(()));
    assert_eq!(tailer.phase(), Phase::Following);
    assert_eq!(tailer.identity(), FileIdentity { device: 1, inode: 7 });
    assert_eq!(tailer.offset(), 6);
    assert_eq!(tailer.feed(b"\n"), lines(&["half"]));
}

#[test]
fn reopen_fails_without_a_file() {
    let mut tailer = Tailer::register(Some(stat(7, 3))).expect("a tailer");
    assert_eq!(tailer.poll(None), Action::Reopen);
    assert_eq!(tailer.reopen(None), Err(OpenError));
    assert_eq!(tailer.phase(), Phase::Rotated);
    assert_eq!(tailer.offset(), 3);
    assert_eq!(tailer.feed(b"ignored\n"), lines(&[]));
    assert_eq!(tailer.offset(), 3);
}
