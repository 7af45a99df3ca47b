use hub_diff::cmd::{
    parse_byte_list, BaseRpcConfig, MessagesCommand, ParseCommand, SubCommands, SyncIdCommand,
    SyncIdParseError,
};
use hub_diff::sync_id::DecodeError;

fn base() -> BaseRpcConfig {
    BaseRpcConfig { http: true, https: false, port: 2283, endpoint: "localhost".to_string() }
}

#[test]
fn byte_list_parses_with_spaces_and_padding() {
    let text = b"48, 49,048,54 ,50,49,49,50,56,48,1,0,7,243".to_vec();
    let bytes = parse_byte_list(&text).unwrap();
    assert_eq!(bytes, vec![48, 49, 48, 54, 50, 49, 49, 50, 56, 48, 1, 0, 7, 243]);
}

#[test]
fn byte_list_rejects_bad_parts() {
    assert_eq!(parse_byte_list(&b"48,,49".to_vec()), None);
    assert_eq!(parse_byte_list(&b"48,x,49".to_vec()), None);
    assert_eq!(parse_byte_list(&b"48,256,49".to_vec()), None);
    assert_eq!(parse_byte_list(&b"48,49,".to_vec()), None);
    assert_eq!(parse_byte_list(&b"".to_vec()), None);
    assert_eq!(parse_byte_list(&b"4 8".to_vec()), None);
}

#[test]
fn sync_id_command_decodes_the_listed_bytes() {
    // The example identifier: timestamp digits "0106211280", type 1 (user
    // message), subject id 0x000007f3.
    let text = b"48,49,48,54,50,49,49,50,56,48,1,0,0,7,243".to_vec();
    let cmd = SyncIdCommand { sync_id: text };
    let id = cmd.execute().unwrap();
    assert_eq!(id.timestamp_delta, 106211280);
    assert_eq!(id.record_type, 1);
    assert_eq!(id.subject_fid, 2035);
    assert!(id.suffix.is_empty());
}

#[test]
fn parse_command_reports_each_error() {
    let bad_list = ParseCommand {
        base: base(),
        subcommand: SubCommands::SyncId(SyncIdCommand { sync_id: b"1,2,oops".to_vec() }),
    };
    assert_eq!(bad_list.execute().err(), Some(SyncIdParseError::InvalidByteList));

    let too_short = ParseCommand {
        base: base(),
        subcommand: SubCommands::SyncId(SyncIdCommand { sync_id: b"1,2,3".to_vec() }),
    };
    assert_eq!(
        too_short.execute().err(),
        Some(SyncIdParseError::Decode(DecodeError::TooShort))
    );

    let bad_ts = ParseCommand {
        base: base(),
        subcommand: SubCommands::SyncId(SyncIdCommand {
            // 15 bytes, but the first is not an ASCII digit.
            sync_id: b"1,49,48,54,50,49,49,50,56,48,1,0,0,7,243".to_vec(),
        }),
    };
    assert_eq!(
        bad_ts.execute().err(),
        Some(SyncIdParseError::Decode(DecodeError::InvalidTimestamp))
    );
}

#[test]
fn test_messages_command() {
    // The transport-facing command itself only carries configuration; its
    // network call lives outside the library.
    let _cmd = MessagesCommand { base: base(), sync_id: Some("test".to_string()) };
}
