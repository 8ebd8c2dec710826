use svoote::static_file::{bundle_for_file, bundle_sources, create_bundle, get_path, init, BUNDLE_COUNT};

#[test]
fn a_bundle_joins_the_files_read_and_is_named_by_its_digest() {
    let b = create_bundle("bundle.css", "text/css", &vec![Some("a".to_string())]);
    assert_eq!(b.name, "bundle.css");
    assert_eq!(b.mime_type, "text/css");
    assert_eq!(b.content, "a\n");
    assert_eq!(b.path, "/static/60b725f10c9c85c70d97880dfe8191b3.bundle.css");

    let b = create_bundle("app.js", "text/javascript", &vec![Some("x".to_string()), None, Some("y".to_string())]);
    assert_eq!(b.content, "x\ny\n");
    assert_eq!(b.path, "/static/1b5bb282b8f8792875e3c4203cfa9c57.app.js");

    let b = create_bundle("qrcode.js", "text/javascript", &vec![None]);
    assert_eq!(b.content, "");
    assert_eq!(b.path, "/static/d41d8cd98f00b204e9800998ecf8427e.qrcode.js");
}

#[test]
fn the_service_serves_four_bundles() {
    let s = bundle_sources();
    assert_eq!(s.len(), BUNDLE_COUNT);
    assert_eq!(s[0].name, "bundle.css");
    assert_eq!(s[0].mime_type, "text/css");
    assert_eq!(s[0].files, vec!["./src/static/output.css"]);
    assert_eq!(s[1].name, "app.js");
    assert_eq!(
        s[1].files,
        vec!["./src/static/reconnecting-websocket.min.js", "./src/static/custom.js", "./src/static/alpine_3_14_3.min.js"]
    );
    assert_eq!(s[2].name, "tailwind_4_dev.js");
    assert_eq!(s[3].name, "qrcode.js");
    assert_eq!(s[3].mime_type, "text/javascript");
}

#[test]
fn bundles_are_found_by_name_and_by_file_name() {
    let contents = vec![
        vec![Some("body{}".to_string())],
        vec![Some("x".to_string()), None, Some("y".to_string())],
        vec![None],
        vec![Some("a".to_string())],
    ];
    let bundles = init(&contents);
    assert_eq!(bundles.len(), 4);
    assert_eq!(get_path(&bundles, "bundle.css"), "/static/0ebcd2e1d497aaf869184d42e8dd1707.bundle.css");
    assert_eq!(get_path(&bundles, "qrcode.js"), "/static/60b725f10c9c85c70d97880dfe8191b3.qrcode.js");
    assert_eq!(get_path(&bundles, "app.js"), "/static/1b5bb282b8f8792875e3c4203cfa9c57.app.js");
    assert_eq!(bundle_for_file(&bundles, "0ebcd2e1d497aaf869184d42e8dd1707.bundle.css"), Some(0));
    assert_eq!(bundle_for_file(&bundles, "abc.qrcode.js"), Some(3));
    assert_eq!(bundle_for_file(&bundles, "abc.tailwind_4_dev.js"), Some(2));
    assert_eq!(bundle_for_file(&bundles, "favicon.ico"), None);
}
