use slothforge::calendar::{date_of, date_string, iso_at, iso_now, local_day, now_ms};
use slothforge::cluster::WorkerInfo;
use slothforge::profile_stats::{
    compute_profile_stats, streaks, training_stats, MessageFacts, RunFacts, ThreadFacts,
};
use slothforge::security::{
    bare_host, guard_request, is_allowed_host, is_allowed_origin, is_loopback_host, origin_host,
    parse_allowed_hosts, strip_port, RequestFacts,
};
use slothforge::server::{
    auth_status, authority, bind_host, bind_port, cache_home, disk_of, first_there, folder_places,
    hardware, health, install_source, new_models_dir, pending_migrations, server_version,
    unknown_endpoint, update_status, version,
};
use slothforge::telemetry::{
    bytes_to_mib, device_backend, from_vulkan, host_platform, is_card_name, pick_card,
    sysfs_matches_vulkan_name, used_from_budget, with_budget, with_card, Card, CardReadings,
    DeviceFacts, MemoryBudget,
};
use slothforge::text;

const DAY_MS: i64 = 86_400 * 1_000;
/// 2026-09-13 00:00:00 UTC
const NOW_MS: i64 = 20_709 * DAY_MS;

fn texts(items: &[&str]) -> Vec<String> {
    items.iter().map(|s| s.to_string()).collect()
}

// ---------- dates and statistics ----------

#[test]
fn formats_dates() {
    assert_eq!(date_string(0), "1970-01-01");
    assert_eq!(date_string(19_723), "2024-01-01");
    assert_eq!(date_string(19_782), "2024-02-29");
    assert_eq!(date_string(20_709), "2026-09-13");
}

#[test]
fn applies_browser_timezone() {
    let ms = NOW_MS - 4 * 3_600_000;
    assert_eq!(date_string(local_day(ms, 0)), "2026-09-12");
    assert_eq!(date_string(local_day(ms, -600)), "2026-09-13");
}

#[test]
fn every_day_follows_the_one_before() {
    let mut before = date_of(-800_000);
    for day in -799_999..800_000i64 {
        let date = date_of(day);
        let next = (date.year, date.month, date.day);
        let expected = if date.day > 1 {
            (before.year, before.month, before.day + 1)
        } else if date.month > 1 {
            (before.year, before.month + 1, 1)
        } else {
            (before.year + 1, 1, 1)
        };
        assert_eq!(next, expected);
        before = date;
    }
    assert_eq!(date_string(-1), "1969-12-31");
    assert_eq!(date_string(i64::MAX - 719_468), "25252734927766554-09-25");
    assert_eq!(date_string(i64::MIN), "-25252734927764585-06-07");
    assert_eq!(local_day(0, i64::MAX / 60), -106_751_991_167_301);
}

#[test]
fn the_clock_is_read() {
    assert_eq!(iso_at(0), "1970-01-01T00:00:00Z");
    assert_eq!(iso_at(1_789_257_599), "2026-09-12T23:59:59Z");
    let first = now_ms();
    assert!(first > 1_600_000_000_000);
    let now = iso_now();
    assert_eq!(now.len(), 20);
    assert!(now.ends_with('Z') && &now[4..5] == "-");
    assert!(now_ms() >= first);
}

#[test]
fn empty_state_gives_zeros_and_nulls() {
    let stats = compute_profile_stats(&vec![], &vec![], 0, NOW_MS);
    assert_eq!(stats.messages, 0);
    assert_eq!(stats.last_active_day, None);
    assert!(stats.longest_chat.is_none());
    assert_eq!(training_stats(&vec![]).runs, 0);
    assert!(stats.daily.is_empty());
    assert_eq!(stats.generated_at, NOW_MS / 1000);
    assert_eq!(compute_profile_stats(&vec![], &vec![], 0, -1_500).generated_at, -1);
    assert_eq!(
        compute_profile_stats(&vec![], &vec![], 0, i64::MIN).generated_at,
        i64::MIN / 1000
    );
}

#[test]
fn counts_real_messages_and_streaks() {
    let threads = vec![ThreadFacts {
        id: "t1".to_string(),
        title: Some("Первый".to_string()),
        model_id: Some("llama-1b".to_string()),
    }];
    let message = |role: &str, created_at: i64| MessageFacts {
        thread_id: "t1".to_string(),
        role: role.to_string(),
        created_at,
    };
    let messages = vec![
        message("user", NOW_MS - 2 * DAY_MS),
        message("assistant", NOW_MS - 2 * DAY_MS + 5_000),
        message("user", NOW_MS - DAY_MS),
        message("user", NOW_MS + 1_000),
        message("user", NOW_MS - 40 * DAY_MS),
    ];

    let stats = compute_profile_stats(&threads, &messages, 0, NOW_MS);
    assert_eq!(stats.messages, 4);
    assert_eq!(stats.user_messages, 3);
    assert_eq!(stats.assistant_messages, 1);
    assert_eq!(stats.active_days, 3);
    assert_eq!(stats.current_streak, 3);
    assert_eq!(stats.longest_streak, 3);
    assert_eq!(stats.last_active_day.as_deref(), Some("2026-09-13"));
    assert_eq!(
        stats.longest_chat.unwrap().title.as_deref(),
        Some("Первый")
    );
    assert_eq!(stats.models[0].id, "llama-1b");
    assert_eq!(stats.models[0].messages, 4);
}

#[test]
fn streaks_end_today_or_yesterday() {
    assert_eq!(streaks(&vec![], 10), (0, 0));
    assert_eq!(streaks(&vec![8, 9], 10), (2, 2));
    assert_eq!(streaks(&vec![1, 2, 3, 7], 10), (0, 3));
    assert_eq!(streaks(&vec![5, 9, 10], 10), (2, 2));
}

#[test]
fn training_runs_are_counted() {
    let run = |status: &str, model: &str, loss: Option<f32>, started: &str| RunFacts {
        status: status.to_string(),
        model_name: model.to_string(),
        dataset_name: "d".to_string(),
        started_at: started.to_string(),
        final_step: Some(10),
        final_loss: loss.map(f32::to_bits),
        duration_seconds: Some(60),
    };
    let runs = vec![
        run("completed", "a", Some(1.5), "2026-09-10T10:00:00Z"),
        run("stopped", "b", Some(0.5), "2026-09-12T10:00:00Z"),
        run("completed", "a", None, "2026-09-11T10:00:00Z"),
    ];
    let stats = training_stats(&runs);
    assert_eq!((stats.runs, stats.completed), (3, 2));
    assert_eq!((stats.steps, stats.seconds), (30, 180));
    assert_eq!((stats.models, stats.datasets), (2, 1));
    assert_eq!(stats.best_loss.map(f32::from_bits), Some(0.5));
    assert_eq!(stats.recent, [1, 2, 0]);
}

// ---------- who may ask ----------

#[test]
fn strips_ports() {
    assert_eq!(strip_port("localhost:3000"), "localhost");
    assert_eq!(strip_port("127.0.0.1"), "127.0.0.1");
    assert_eq!(strip_port("[::1]:3000"), "::1");
    assert_eq!(strip_port("example.com:"), "example.com:");
}

#[test]
fn detects_loopback_hosts() {
    assert!(is_loopback_host("localhost", false));
    assert!(is_loopback_host("LOCALHOST.", false));
    assert!(is_loopback_host("app.localhost", false));
    assert!(is_loopback_host("127.0.0.1", true));
    assert!(is_loopback_host("127.8.9.10", true));
    assert!(is_loopback_host("::1", true));
    assert!(!is_loopback_host("0.0.0.0", false));
    assert!(!is_loopback_host("192.168.1.10", false));
    assert!(!is_loopback_host("localhost.evil.example", false));
}

#[test]
fn checks_origins() {
    let none = vec![];
    assert!(is_allowed_origin("http://localhost:3000", &none, false));
    assert!(is_allowed_origin("http://127.0.0.1:5173", &none, true));
    assert!(is_allowed_origin("http://[::1]:3000", &none, true));
    assert!(!is_allowed_origin("http://evil.example", &none, false));
    assert!(!is_allowed_origin("null", &none, false));
    assert!(!is_allowed_origin("file://localhost", &none, false));
}

#[test]
fn other_hosts_are_allowed_by_name() {
    let extra = parse_allowed_hosts(" PC.local , ,192.168.1.10:3000");
    assert!(is_allowed_host("pc.local", &extra, false));
    assert!(!is_allowed_host("other.local", &extra, false));
    assert_eq!(bare_host("LocalHost."), "localhost");
    assert_eq!(
        origin_host("https://a.example:8443").as_deref(),
        Some("a.example")
    );
}

#[test]
fn requests_of_other_sites_change_nothing() {
    let facts = |read_only: bool, host: Option<&str>, origin: Option<&str>| RequestFacts {
        read_only,
        host: host.map(|s| s.to_string()),
        host_is_loopback_address: false,
        has_origin: origin.is_some(),
        origin: origin.map(|s| s.to_string()),
        origin_is_loopback_address: false,
    };
    let none = vec![];
    assert_eq!(
        guard_request(&facts(true, None, None), &none).unwrap_err().status,
        400
    );
    assert_eq!(
        guard_request(&facts(true, Some("evil.example"), None), &none)
            .unwrap_err()
            .status,
        403
    );
    assert!(guard_request(
        &facts(true, Some("localhost:3000"), Some("http://evil.example")),
        &none
    )
    .is_ok());
    assert_eq!(
        guard_request(
            &facts(false, Some("localhost:3000"), Some("http://evil.example")),
            &none
        )
        .unwrap_err()
        .detail,
        "Изменяющий запрос со страницы чужого сайта отклонён"
    );
    assert!(guard_request(
        &facts(false, Some("localhost:3000"), Some("http://localhost:5173")),
        &none
    )
    .is_ok());
}

// ---------- telemetry ----------

#[test]
fn picks_card_matching_vulkan_memory() {
    let cards = vec![
        Card {
            device_dir: "/card0".to_string(),
            vram_total_bytes: 4 << 30,
        },
        Card {
            device_dir: "/card1".to_string(),
            vram_total_bytes: 8 << 30,
        },
    ];
    assert_eq!(pick_card(&cards, Some(8 << 30)), Some(1));
    assert_eq!(pick_card(&cards, Some(4 << 30)), Some(0));
    assert_eq!(pick_card(&cards, None), Some(1));
    assert_eq!(pick_card(&vec![], None), None);
}

#[test]
fn amd_sysfs_is_not_used_for_other_vendors() {
    assert!(sysfs_matches_vulkan_name(&Some(
        "AMD Radeon RX 570 Series (RADV POLARIS10)".to_string()
    )));
    assert!(sysfs_matches_vulkan_name(&None));
    assert!(!sysfs_matches_vulkan_name(&Some(
        "NVIDIA GeForce RTX 3060".to_string()
    )));
}

#[test]
fn budget_gives_estimate_of_used_memory() {
    let total: u64 = 4 << 30;
    let budget = MemoryBudget {
        budget_bytes: 1_300 << 20,
        usage_bytes: 100 << 20,
    };
    assert_eq!(
        used_from_budget(total, budget),
        total - (1_300 << 20) + (100 << 20)
    );
    let broken = MemoryBudget {
        budget_bytes: 0,
        usage_bytes: 8 << 30,
    };
    assert_eq!(used_from_budget(total, broken), total);
}

fn readings() -> CardReadings {
    CardReadings {
        vram_used_bytes: Some(1 << 30),
        busy_percent: Some(37),
        kernel_driver: None,
        temp_millidegrees: Some(48_000),
        power_average_microwatts: None,
        power_input_microwatts: Some(21_180_000),
        power_cap_microwatts: Some(90_000_000),
        fan_rpm: Some(1015),
    }
}

#[test]
fn reads_amdgpu_sysfs() {
    let gpu = with_card(from_vulkan(None, None), 4 << 30, readings());
    assert!(gpu.available());
    assert_eq!(gpu.vram_total_bytes, Some(4 * 1024 * 1024 * 1024));
    assert_eq!(gpu.vram_used_bytes, Some(1024 * 1024 * 1024));
    assert_eq!(gpu.vram_free_bytes(), Some(3 * 1024 * 1024 * 1024));
    assert_eq!(gpu.utilization_pct, Some(37));
    assert_eq!(gpu.temperature_millidegrees, Some(48_000));
    assert_eq!(gpu.power_draw_microwatts, Some(21_180_000));
    assert_eq!(gpu.power_limit_microwatts, Some(90_000_000));
    assert_eq!(gpu.fan_rpm, Some(1015));
    assert_eq!(device_backend(&gpu), "vulkan");
}

#[test]
fn nothing_found_means_nulls_not_numbers() {
    let gpu = with_budget(from_vulkan(None, None), None);
    assert!(!gpu.available());
    assert_eq!(gpu.temperature_millidegrees, None);
    assert_eq!(gpu.vram_total_bytes, None);
    assert_eq!(gpu.vram_used_bytes, None);
    assert_eq!(gpu.vram_free_bytes(), None);
    assert_eq!(device_backend(&gpu), "cpu");
}

#[test]
fn the_driver_knows_more_than_the_budget() {
    let device = || {
        Some(DeviceFacts {
            device_local_bytes: 4 << 30,
            driver_name: Some("radv".to_string()),
            driver_info: None,
            api_version: "1.4.0".to_string(),
        })
    };
    let budget = Some(MemoryBudget {
        budget_bytes: 3 << 30,
        usage_bytes: 0,
    });
    let name = || Some("AMD".to_string());
    let guessed = with_budget(from_vulkan(name(), device()), budget);
    assert_eq!(guessed.vram_used_bytes, Some(1 << 30));
    let mut known = readings();
    known.vram_used_bytes = Some(5);
    let read = with_budget(with_card(from_vulkan(name(), device()), 4 << 30, known), budget);
    assert_eq!(read.vram_used_bytes, Some(5));
    assert_eq!(read.vulkan_api_version.as_deref(), Some("1.4.0"));
    assert_eq!(bytes_to_mib(4 << 30), 4096);
    assert!(is_card_name("card1"));
    assert!(!is_card_name("card1-DP-1"));
    assert!(!is_card_name("renderD128"));
}

// ---------- the server ----------

#[test]
fn the_server_listens_where_it_is_told() {
    assert_eq!(bind_host(None, None), "127.0.0.1");
    assert_eq!(
        bind_host(Some("0.0.0.0".to_string()), Some("pc".to_string())),
        "0.0.0.0"
    );
    assert_eq!(bind_port(&None), Ok(3000));
    assert_eq!(bind_port(&Some(" 8080 ".to_string())), Ok(8080));
    assert_eq!(
        bind_port(&Some("70000".to_string())),
        Err("Некорректный порт в PORT/SLOTH_PORT: «70000»".to_string())
    );
    assert_eq!(authority("::1", 3000), "[::1]:3000");
    assert_eq!(authority("127.0.0.1", 80), "127.0.0.1:80");
    assert_eq!(version(), server_version());
}

#[test]
fn folders_are_looked_for_in_order() {
    let exe = Some("/opt/app".to_string());
    let places = folder_places(&exe, "/project", &Some("/cwd".to_string()), "models");
    assert!(places.contains(&"/project/models".to_string()));
    let mut there = vec![false; places.len()];
    assert_eq!(first_there(&places, &there), None);
    there[places.len() - 1] = true;
    assert_eq!(
        first_there(&places, &there).as_deref(),
        Some(places[places.len() - 1].as_str())
    );
    assert_eq!(new_models_dir(&exe), "/opt/app/models");
    assert_eq!(new_models_dir(&None), "models");
    assert_eq!(
        cache_home(&None, &Some("/home/u".to_string())),
        ("/home/u/.cache/huggingface".to_string(), false)
    );
    assert_eq!(
        cache_home(&Some("/hf".to_string()), &None),
        ("/hf".to_string(), true)
    );
    assert_eq!(
        disk_of("/home/u/models", &texts(&["/", "/home", "/homes"])),
        Some(1)
    );
    assert_eq!(disk_of("/x", &texts(&["/home"])), None);
    assert_eq!(pending_migrations(1, 3), [1, 2]);
    assert!(pending_migrations(5, 3).is_empty());
    assert_eq!(pending_migrations(-1, 2), [0, 1]);
}

#[test]
fn plain_answers_of_the_server() {
    let answer = health(&None);
    assert_eq!(answer.gpu_name, "Vulkan-устройство не найдено");
    assert!(!answer.vulkan_available);
    assert_eq!(answer.capabilities.len(), 5);
    assert!(auth_status().authenticated);
    assert_eq!(install_source().channel, "stable");
    assert!(!update_status().update_available);
    let worker = WorkerInfo {
        worker_id: "w".to_string(),
        rank: 1,
        ip: "192.168.1.2".to_string(),
        gpu_name: "g".to_string(),
        vram_mb: 8192,
        latency_ms: None,
        last_seen_ms: 0,
    };
    let shown = hardware(&None, &vec![worker]);
    assert!(shown.is_cluster);
    assert_eq!(shown.cluster_total_vram_mb, 4096 + 8192);
    assert_eq!(unknown_endpoint("/api/x").status, 404);
}

// ---------- texts ----------

#[test]
fn blanks_are_those_of_std() {
    for code in 0..0x110000u32 {
        if let Some(c) = char::from_u32(code) {
            assert_eq!(text::whitespace(c), c.is_whitespace());
            assert_eq!(text::to_lower_char(c), c.to_ascii_lowercase());
            assert_eq!(text::code(c), code);
        }
    }
}

#[test]
fn texts_are_cut_as_std_does() {
    let samples = [
        "", " ", "a", "/", "//", "a/b", "/a//b/", "ab ab", "\u{a0}тест\u{2003}", "aaa", "x=y=z",
    ];
    for s in samples {
        assert_eq!(text::trim(s), s.trim());
        assert_eq!(text::to_lower(s), s.to_ascii_lowercase());
        assert_eq!(
            text::split(s, '/'),
            s.split('/').map(|p| p.to_string()).collect::<Vec<String>>()
        );
        assert_eq!(text::trim_end_char(s, '/'), s.trim_end_matches('/'));
        for part in samples {
            assert_eq!(text::contains(s, part), s.contains(part));
            assert_eq!(text::starts_with(s, part), s.starts_with(part));
            assert_eq!(text::ends_with(s, part), s.ends_with(part));
            assert_eq!(
                text::strip_prefix(s, part),
                s.strip_prefix(part).map(|p| p.to_string())
            );
            assert_eq!(
                text::strip_suffix(s, part),
                s.strip_suffix(part).map(|p| p.to_string())
            );
            assert_eq!(text::comes_before(s, part), s < part);
            assert_eq!(
                text::same_ignoring_case(s, part),
                s.eq_ignore_ascii_case(part)
            );
            if !part.is_empty() {
                assert_eq!(text::replace(s, part, "-"), s.replace(part, "-"));
            }
        }
    }
    assert_eq!(text::decimal(u64::MAX), u64::MAX.to_string());
    for s in ["0", "007", "+5", "-5", "", "18446744073709551615", "18446744073709551616", "1a"] {
        assert_eq!(text::parse_number(s, u64::MAX), s.parse::<u64>().ok());
        assert_eq!(
            text::parse_number(s, 65_535),
            s.parse::<u16>().ok().map(u64::from)
        );
    }
}

#[test]
fn platform_uses_frontend_names() {
    let platform = host_platform("macos");
    assert_ne!(platform, "macos");
    assert!(!platform.is_empty());
    assert_eq!(platform, "mac");
    assert_eq!(host_platform("linux"), "linux");
}
