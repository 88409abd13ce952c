use trycli::collect::{build_packages, date_to_epoch, epoch_to_date_str, parse_pacman_date, parse_pacman_info, Package};
use trycli::text::{center_str, truncate};

fn pkg(name: &str, epoch: u64, source: &str) -> Package {
    Package {
        epoch,
        name: name.to_string(),
        source: source.to_string(),
        description: String::new(),
    }
}

#[test]
fn epoch_dates() {
    assert_eq!(epoch_to_date_str(0), "1970-01-01");
    assert_eq!(epoch_to_date_str(86399), "1970-01-01");
    assert_eq!(epoch_to_date_str(86400), "1970-01-02");
    assert_eq!(epoch_to_date_str(951782400), "2000-02-29");
    assert_eq!(epoch_to_date_str(1700000000), "2023-11-14");
    assert_eq!(epoch_to_date_str(1706745600), "2024-02-01");
}

#[test]
fn far_future_date_is_wide() {
    assert_eq!(epoch_to_date_str(253402300800), "10000-01-01");
}

#[test]
fn date_str_unknown_when_zero() {
    assert_eq!(pkg("x", 0, "cargo").date_str(), "unknown   ");
    assert_eq!(pkg("x", 1700000000, "cargo").date_str(), "2023-11-14");
}

#[test]
fn build_keeps_first_of_each_name_newest_first() {
    let out = build_packages(vec![
        pkg("fd", 10, "pacman"),
        pkg("rg", 30, "pacman"),
        pkg("fd", 50, "brew"),
        pkg("bat", 30, "cargo"),
        pkg("eza", 20, "cargo"),
    ]);
    let got: Vec<(String, u64, String)> =
        out.iter().map(|p| (p.name.clone(), p.epoch, p.source.clone())).collect();
    assert_eq!(
        got,
        vec![
            ("rg".to_string(), 30, "pacman".to_string()),
            ("bat".to_string(), 30, "cargo".to_string()),
            ("eza".to_string(), 20, "cargo".to_string()),
            ("fd".to_string(), 10, "pacman".to_string()),
        ]
    );
}

#[test]
fn build_of_nothing_is_empty() {
    assert!(build_packages(vec![]).is_empty());
}

#[test]
fn centering() {
    assert_eq!(center_str("5", 5), "  5  ");
    assert_eq!(center_str("12", 5), "  12 ");
    assert_eq!(center_str("USE ▼", 5), "USE ▼");
    assert_eq!(center_str("USES", 5), " USES");
    assert_eq!(center_str("toolong", 3), "toolong");
}

#[test]
fn truncation_respects_char_boundaries() {
    assert_eq!(truncate("ripgrep", 3), "rip");
    assert_eq!(truncate("ab", 5), "ab");
    assert_eq!(truncate("héllo", 2), "h");
    assert_eq!(truncate("héllo", 3), "hé");
    assert_eq!(truncate("é", 0), "");
}

#[test]
fn pacman_dates() {
    assert_eq!(parse_pacman_date("Thu 01 Feb 2024 10:23:45 AM UTC"), 1706783025);
    assert_eq!(parse_pacman_date("Thu 01 Feb 2024 10:23:45 PM UTC"), 1706826225);
    assert_eq!(parse_pacman_date("Thu 01 Feb 2024 12:00:00 AM UTC"), 1706745600);
    assert_eq!(parse_pacman_date("Thu 01 Feb 2024 22:23:45 UTC"), 1706826225);
    assert_eq!(parse_pacman_date("Thu 01 Feb 2024"), 0);
    assert_eq!(parse_pacman_date("Thu 01 Foo 2024 10:23:45"), 0);
    assert_eq!(parse_pacman_date("Thu 01 Feb 2024 10:23"), 0);
    assert_eq!(parse_pacman_date("Thu 01 Jan 1969 00:00:00"), 0);
}

#[test]
fn civil_to_epoch() {
    assert_eq!(date_to_epoch(1970, 1, 1, 0, 0, 0), 0);
    assert_eq!(date_to_epoch(2000, 2, 29, 0, 0, 0), 951782400);
    assert_eq!(date_to_epoch(2023, 11, 14, 22, 13, 20), 1700000000);
    assert_eq!(date_to_epoch(1969, 12, 31, 23, 0, 0), 0);
}

#[test]
fn pacman_info_records() {
    let info = "Name            : ripgrep\n\
                Version         : 14.1.0-1\n\
                Description     : A search tool\n\
                Install Date    : Thu 01 Feb 2024 10:23:45 AM UTC\n\
                \n\
                Name            : fd\n\
                Description     : Simple find: fast\r\n\
                \n\
                Name            : bat\n";
    let got = parse_pacman_info(info);
    let view: Vec<(String, String, u64, String)> = got
        .iter()
        .map(|p| (p.name.clone(), p.description.clone(), p.epoch, p.source.clone()))
        .collect();
    assert_eq!(
        view,
        vec![
            ("ripgrep".to_string(), "A search tool".to_string(), 1706783025, "pacman".to_string()),
            ("fd".to_string(), "Simple find: fast".to_string(), 0, "pacman".to_string()),
            ("bat".to_string(), "".to_string(), 0, "pacman".to_string()),
        ]
    );
    assert!(parse_pacman_info("").is_empty());
}

#[test]
fn cache_lines() {
    let got = trycli::collect::parse_cache(
        "100\trg\tcargo\tfast\tgrep\nbad\tx\ty\n5\tfd\tbrew\n7\tonly\n\n42\tbat\tpacman\tcat clone\r\n",
    );
    let view: Vec<(u64, String, String, String)> = got
        .iter()
        .map(|p| (p.epoch, p.name.clone(), p.source.clone(), p.description.clone()))
        .collect();
    assert_eq!(
        view,
        vec![
            (100, "rg".to_string(), "cargo".to_string(), "fast\tgrep".to_string()),
            (5, "fd".to_string(), "brew".to_string(), "".to_string()),
            (42, "bat".to_string(), "pacman".to_string(), "cat clone".to_string()),
        ]
    );
}

#[test]
fn cargo_install_list() {
    let out = "ripgrep v14.1.0:\n    rg\ncargo-edit v0.12.2:\n    cargo-add\n    cargo-rm\nweird:\n    w\n";
    let got = trycli::collect::parse_cargo_list(out);
    assert_eq!(
        got,
        vec![
            ("ripgrep".to_string(), "rg".to_string()),
            ("cargo-edit".to_string(), "cargo-add".to_string()),
            ("cargo-edit".to_string(), "cargo-rm".to_string()),
            ("weird".to_string(), "w".to_string()),
        ]
    );
    assert!(trycli::collect::parse_cargo_list("    orphan\n").is_empty());
}

#[test]
fn brew_selection() {
    let f = |name: Option<&str>, times: Vec<Option<u64>>, req: Option<bool>| trycli::collect::BrewFormula {
        name: name.map(|s| s.to_string()),
        desc: Some("d".to_string()),
        installed_times: times,
        installed_on_request: req,
    };
    let got = trycli::collect::brew_packages(vec![
        f(Some("jq"), vec![Some(5), Some(9)], Some(true)),
        f(Some("dep"), vec![Some(5)], Some(false)),
        f(Some("none"), vec![], Some(true)),
        f(None, vec![Some(1)], Some(true)),
        f(Some("x"), vec![Some(3), None], Some(true)),
        f(Some("y"), vec![Some(3)], None),
    ]);
    let view: Vec<(u64, String, String)> =
        got.iter().map(|p| (p.epoch, p.name.clone(), p.source.clone())).collect();
    assert_eq!(
        view,
        vec![(9, "jq".to_string(), "brew".to_string()), (0, "x".to_string(), "brew".to_string())]
    );
}
