//! Texts, paths, maps, and the calls into outside crates.
use agentic_tui::http::{asset_path, asset_reply, events_url, AssetReply};
use agentic_tui::paths::{
    file_name, is_absolute, join_path, not_after, parent, path_components, sort_paths,
};
use agentic_tui::strmap::StrMap;
use agentic_tui::text::{
    contains, decimal, is_white_space, join, parse_number, split, starts_with, take_chars,
    text_not_after, trim, until_char,
};

#[test]
fn white_space_is_what_std_says() {
    for code in 0..=0x10ffffu32 {
        if let Some(c) = char::from_u32(code) {
            assert_eq!(is_white_space(c), c.is_whitespace(), "at {code:x}");
        }
    }
}

#[test]
fn texts_behave_like_std() {
    let samples = ["", " ", "a", " a b ", "\u{3000}x\u{a0}", "a//b/", "/", "ab\nc", "é x"];
    for s in samples {
        assert_eq!(trim(s), s.trim());
        let parts: Vec<String> = s.split('/').map(str::to_string).collect();
        assert_eq!(split(s, '/'), parts);
        assert_eq!(join(&parts, ", "), parts.join(", "));
        for p in samples {
            assert_eq!(starts_with(s, p), s.starts_with(p));
            assert_eq!(contains(s, p), s.contains(p));
            assert_eq!(text_not_after(s, p), s <= p);
        }
    }
    assert_eq!(take_chars("héllo", 2), "hé");
    assert_eq!(take_chars("h", 2), "h");
    assert_eq!(until_char("a=b=c", '='), "a");
    assert_eq!(until_char("abc", '='), "abc");
}

#[test]
fn numbers_read_back() {
    for n in [0u64, 1, 9, 10, 99, 1234567890, u64::MAX] {
        assert_eq!(decimal(n), n.to_string());
        assert_eq!(parse_number(&decimal(n)), Some(n));
    }
    for s in ["", "+", "+5", "-1", "007", "1a", "18446744073709551616", " 1", "٣"] {
        assert_eq!(parse_number(s), s.parse::<u64>().ok(), "on {s:?}");
    }
}

#[test]
fn paths_behave_like_std() {
    let samples = [
        "", "/", "a", "/a", "/a/b", "a/b/", "//a//b", "./a", "a/./b", "..", "/..", "a/..", "/a/b/.",
        ".hidden", "a/.",
    ];
    for s in samples {
        let p = std::path::Path::new(s);
        assert_eq!(is_absolute(s), p.is_absolute(), "absolute {s:?}");
        assert_eq!(
            file_name(s),
            p.file_name().map(|n| n.to_string_lossy().to_string()),
            "file name of {s:?}"
        );
        assert_eq!(
            parent(s).map(|x| std::path::PathBuf::from(x)),
            p.parent().map(|x| x.to_path_buf()),
            "parent of {s:?}"
        );
        for t in samples {
            let q = std::path::Path::new(t);
            assert_eq!(join_path(s, t), p.join(q).to_string_lossy(), "{s:?} joined with {t:?}");
            assert_eq!(not_after(s, t), p <= q, "{s:?} <= {t:?}");
        }
    }
    assert_eq!(path_components("/a//b/."), vec!["a".to_string(), "b".to_string()]);
}

#[test]
fn paths_sort_by_component() {
    let mut list: Vec<String> =
        ["/b", "/a/z", "/a-b", "/a", "/a/b/c"].iter().map(|s| s.to_string()).collect();
    let sorted = sort_paths(&list);
    list.sort_by(|a, b| std::path::Path::new(a).cmp(std::path::Path::new(b)));
    assert_eq!(sorted, list);
}

#[test]
fn maps_keep_one_value_per_key() {
    let mut map = StrMap::new();
    assert_eq!(map.len(), 0);
    map.insert("a".to_string(), 1);
    map.insert("b".to_string(), 2);
    map.insert("a".to_string(), 3);
    assert_eq!(map.len(), 2);
    assert_eq!(map.get("a"), Some(&3));
    assert_eq!(map.get("c"), None);
    assert!(map.contains("b"));
    assert_eq!(map.key_at(0), "a");
    assert_eq!(map.value_at(1), &2);
}

#[test]
fn assets_have_their_media_type() {
    assert_eq!(asset_path(""), "index.html");
    assert_eq!(
        asset_reply("app.css", true, true),
        AssetReply::Asset { file: "app.css".to_string(), media_type: "text/css".to_string() }
    );
    assert_eq!(
        asset_reply("web.wasm", true, true),
        AssetReply::Asset {
            file: "web.wasm".to_string(),
            media_type: "application/wasm".to_string(),
        }
    );
    assert_eq!(
        asset_reply("index.html", true, true),
        AssetReply::Asset { file: "index.html".to_string(), media_type: "text/html".to_string() }
    );
    // A page of the app is the shell; its type goes by the path asked for.
    assert_eq!(
        asset_reply("run/7", false, true),
        AssetReply::Asset {
            file: "index.html".to_string(),
            media_type: "application/octet-stream".to_string(),
        }
    );
    assert_eq!(asset_reply("run/7", false, false), AssetReply::NotFound);
}

#[test]
fn events_come_over_a_socket() {
    assert_eq!(events_url("http:", "localhost:1", "7"), "ws://localhost:1/api/runs/7/events");
    assert_eq!(events_url("https:", "h", "7"), "wss://h/api/runs/7/events");
}
