use bbt::entry::PathText;
use bbt::output::{current_timestamp, timestamp_or_epoch, CommandContext, SchemaEnvelope};

#[test]
fn command_context_keeps_argument_bytes_as_hex() {
    let args = vec![
        PathText::new("bbt".to_owned(), b"bbt".to_vec()),
        PathText::new("disk".to_owned(), b"disk".to_vec()),
        PathText::new("\u{fffd}x".to_owned(), vec![0xff, b'x']),
    ];
    let context = CommandContext::from_args(&args, Some("/home/user".to_owned()), Some(1000));
    assert_eq!(context.argv, vec!["bbt", "disk", "\u{fffd}x"]);
    assert_eq!(context.argv_bytes_hex, vec!["626274", "6469736b", "ff78"]);
    assert_eq!(context.cwd.as_deref(), Some("/home/user"));
    assert_eq!(context.effective_uid, Some(1000));
}

#[test]
fn schema_envelope_carries_schema_command_and_data() {
    let context = CommandContext::new(vec!["bbt".to_owned()], vec!["626274".to_owned()], None, None);
    let envelope = SchemaEnvelope::new("bbt.disk.usage.v1", context, 42u64);
    assert_eq!(envelope.schema, "bbt.disk.usage.v1");
    assert_eq!(envelope.command.argv, vec!["bbt"]);
    assert_eq!(envelope.data, 42);
    assert!(envelope.generated_at.ends_with('Z'));
}

#[test]
fn timestamps_fall_back_to_the_epoch() {
    assert_eq!(timestamp_or_epoch(None), "1970-01-01T00:00:00Z");
    assert_eq!(timestamp_or_epoch(Some("2026-05-29T12:00:00Z".to_owned())), "2026-05-29T12:00:00Z");
    let now = current_timestamp();
    assert!(now.len() >= 20 && now.contains('T'));
    let c: Vec<char> = now.chars().collect();
    assert!(c.len() == 20 || (22..=30).contains(&c.len()));
    for (i, ch) in c.iter().enumerate().take(19) {
        match i {
            4 | 7 => assert_eq!(*ch, '-'),
            10 => assert_eq!(*ch, 'T'),
            13 | 16 => assert_eq!(*ch, ':'),
            _ => assert!(ch.is_ascii_digit()),
        }
    }
    if c.len() > 20 {
        assert_eq!(c[19], '.');
        assert!(c[20..c.len() - 1].iter().all(|d| d.is_ascii_digit()));
    }
    assert_eq!(c[c.len() - 1], 'Z');
}

#[test]
fn kernel_bytes_decode_lossily() {
    assert_eq!(bbt::text::decode_lossy(b"Name:\tbash\n"), "Name:\tbash\n");
    assert_eq!(bbt::text::decode_lossy(b"a\xffb"), "a\u{fffd}b");
    assert_eq!(bbt::text::decode_lossy("héllo".as_bytes()), "héllo");
}
