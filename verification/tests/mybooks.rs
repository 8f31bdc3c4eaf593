use txt2epub::mybooks::{
    after_delete, after_upload, base_url, book_txt_path, delete_format_path, percent_encode_query_value,
    publish_opening, reply_parse_failure, response_is_ok, restored_session, search_query_string,
    session_from_sign_in, sign_in_verdict, upload_path, ApiReply, PersistedSession, PublishCommand,
};

fn reply(err: Option<&str>, msg: Option<&str>, book_id: Option<i64>) -> ApiReply {
    ApiReply { err: err.map(|s| s.to_string()), msg: msg.map(|s| s.to_string()), book_id }
}

#[test]
fn rejects_invalid_host() {
    assert!(base_url("not a url").is_err());
}

#[test]
fn invalid_host_error_is_explained() {
    assert!(base_url("not a url").unwrap_err().starts_with("host 地址无效: "));
    assert_eq!(base_url("https://mybooks.example.com").unwrap().as_str(), "https://mybooks.example.com/");
}

#[test]
fn response_is_ok_checks_err_field() {
    assert!(response_is_ok(&reply(Some("ok"), None, None)));
    assert!(!response_is_ok(&reply(Some("params.invalid"), None, None)));
    assert!(!response_is_ok(&reply(None, None, None)));
}

#[test]
fn sign_in_replies_map_to_messages() {
    assert_eq!(sign_in_verdict("ok", ""), Ok(()));
    assert_eq!(sign_in_verdict("params.invalid", "x"), Err("用户名或密码错误".to_string()));
    assert_eq!(sign_in_verdict("no_user", ""), Err("用户不存在".to_string()));
    assert_eq!(sign_in_verdict("permission.inactive", ""), Err("账号未激活，请先完成邮箱激活".to_string()));
    assert_eq!(sign_in_verdict("rate.limited", ""), Err("登录失败: rate.limited".to_string()));
    assert_eq!(sign_in_verdict("rate.limited", "请稍后再试"), Err("登录失败: 请稍后再试".to_string()));
}

#[test]
fn sign_in_keeps_the_session_cookie() {
    let s = session_from_sign_in("https://h", "me", Some("user_id=abc123".to_string())).unwrap();
    assert_eq!((s.host.as_str(), s.username.as_str(), s.cookie.as_str()), ("https://h", "me", "user_id=abc123"));
    assert_eq!(session_from_sign_in("https://h", "me", None).unwrap_err(), "登录未返回有效会话");
}

#[test]
fn restored_session_depends_on_the_server_check() {
    let stored = PersistedSession { host: "https://h".to_string(), username: "me".to_string(), cookie: "c".to_string() };
    let s = restored_session(stored.clone(), true).unwrap();
    assert_eq!((s.host.as_str(), s.username.as_str()), ("https://h", "me"));
    assert!(restored_session(stored, false).is_none());
}

#[test]
fn request_paths_and_values() {
    assert_eq!(search_query_string("三体"), "title:%E4%B8%89%E4%BD%93");
    assert_eq!(search_query_string("a b"), "title:a%20b");
    assert_eq!(book_txt_path(42), "/api/book/42.txt");
    assert_eq!(book_txt_path(-7), "/api/book/-7.txt");
    assert_eq!(delete_format_path(42), "/api/book/42/delete_format");
    assert_eq!(upload_path(1234567890123), "/api/book/upload?bid=1234567890123&update_metadata=0");
}

#[test]
fn percent_encoding_keeps_unreserved_bytes() {
    assert_eq!(percent_encode_query_value("AZaz09-_.~"), "AZaz09-_.~");
    assert_eq!(percent_encode_query_value(""), "");
}

#[test]
fn percent_encoding_escapes_other_bytes_in_upper_case_hex() {
    assert_eq!(percent_encode_query_value("a b/c"), "a%20b%2Fc");
    assert_eq!(percent_encode_query_value("三体"), "%E4%B8%89%E4%BD%93");
    assert_eq!(percent_encode_query_value("title:x"), "title%3Ax");
}

#[test]
fn parse_failure_quotes_the_start_of_the_body() {
    let body = "x".repeat(400);
    let m = reply_parse_failure("搜索响应", "404 Not Found", "expected value", &body);
    assert_eq!(m, format!("搜索响应: 解析失败（HTTP 404 Not Found）: expected value；响应内容: {}", "x".repeat(300)));
    let m = reply_parse_failure("登录响应", "200 OK", "eof", "短");
    assert_eq!(m, "登录响应: 解析失败（HTTP 200 OK）: eof；响应内容: 短");
}

fn phases(step: &txt2epub::mybooks::PublishStep) -> Vec<(String, u8, String)> {
    step.progress.iter().map(|p| (p.phase.clone(), p.percent, p.message.clone())).collect()
}

#[test]
fn publishing_deletes_an_existing_epub_first() {
    let step = publish_opening(true);
    assert_eq!(
        phases(&step),
        vec![
            ("checking_format".to_string(), 0, "正在检查书库中的现有格式...".to_string()),
            ("deleting_old_format".to_string(), 10, "正在删除旧的 epub 格式...".to_string()),
        ]
    );
    assert!(matches!(step.command, PublishCommand::DeleteOldFormat));

    let step = after_delete(&reply(Some("ok"), None, None));
    assert_eq!(phases(&step), vec![("uploading".to_string(), 40, "正在上传新的 epub 文件...".to_string())]);
    assert!(matches!(step.command, PublishCommand::UploadEpub));
}

#[test]
fn publishing_without_an_epub_uploads_at_once() {
    let step = publish_opening(false);
    assert_eq!(phases(&step).len(), 2);
    assert_eq!(phases(&step)[1], ("uploading".to_string(), 40, "正在上传新的 epub 文件...".to_string()));
    assert!(matches!(step.command, PublishCommand::UploadEpub));
}

#[test]
fn a_refused_deletion_stops_the_publication() {
    let step = after_delete(&reply(Some("permission.denied"), Some("no"), None));
    assert!(step.progress.is_empty());
    match step.command {
        PublishCommand::Finish(Err(m)) => assert_eq!(m, "删除旧 epub 格式失败"),
        _ => panic!("the publication should stop"),
    }
}

#[test]
fn an_accepted_upload_reports_the_book() {
    let step = after_upload(&reply(Some("ok"), Some("已更新"), Some(88)));
    assert_eq!(phases(&step), vec![("uploading".to_string(), 100, "上传完成: book_id=88, msg=已更新".to_string())]);
    assert!(matches!(step.command, PublishCommand::Finish(Ok(()))));

    let step = after_upload(&reply(Some("ok"), None, None));
    assert_eq!(phases(&step)[0].2, "上传完成: book_id=0, msg=上传成功");
}

#[test]
fn a_refused_upload_reports_the_server_message() {
    match after_upload(&reply(Some("error"), Some("格式不支持"), None)).command {
        PublishCommand::Finish(Err(m)) => assert_eq!(m, "上传 epub 失败: 格式不支持"),
        _ => panic!("the upload should fail"),
    }
    match after_upload(&reply(None, None, None)).command {
        PublishCommand::Finish(Err(m)) => assert_eq!(m, "上传 epub 失败: 未知错误"),
        _ => panic!("the upload should fail"),
    }
}

fn percent_decode(text: &str) -> Vec<u8> {
    let chars: Vec<char> = text.chars().collect();
    let mut out = Vec::new();
    let mut i = 0;
    while i < chars.len() {
        if chars[i] == '%' && i + 2 < chars.len() {
            let hex: String = chars[i + 1..i + 3].iter().collect();
            out.push(u8::from_str_radix(&hex, 16).unwrap());
            i += 3;
        } else {
            out.push(chars[i] as u8);
            i += 1;
        }
    }
    out
}

#[test]
fn percent_encoding_reads_back_and_is_query_safe() {
    for value in ["", "plain", "a b&c=d", "百分号 %25 ~_.-", "\u{1F600}\t\n"] {
        let encoded = percent_encode_query_value(value);
        assert_eq!(percent_decode(&encoded), value.as_bytes(), "{value:?}");
        assert!(
            encoded.chars().all(|c| c == '%' || c.is_ascii_alphanumeric() || "-_.~".contains(c)),
            "{encoded}"
        );
    }
}
