//! The clock, the theme, and what the shell first looks like.
use yantrik_ui::app_context::{
    chat_prompt, clock_object, current_date_short, current_date_text, current_time_hhmm, display_resolution, first_word_of, job_done,
    offset_text, parse_hex_color, picture_shown, provider_label, theme_overrides, time_of_day_greeting, wallpaper,
    zone_name_from, AppContext, ClockParts, Cloud, Config, Reply, Rgba, Saved, Wallpaper,
};
use yantrik_ui::json::{parse, render, Json};

/// The JSON a text spells.
fn j(text: &str) -> Json {
    parse(text).expect("a JSON text")
}

fn rendered(parts: &ClockParts, zone: &str) -> String {
    render(&clock_object(parts, zone))
}

fn parts(
    year: i64,
    month: u32,
    day: u32,
    weekday: u32,
    hour: u32,
    minute: u32,
    offset_secs: i64,
) -> ClockParts {
    ClockParts { year, month, day, weekday, hour, minute, offset_secs }
}

#[test]
fn the_clock_says_the_date_the_weekday_the_time_the_offset_and_the_zone() {
    assert_eq!(
        rendered(&parts(2026, 9, 23, 3, 18, 31, 0), ""),
        render(&j(r#"{ "date": "2026-09-23", "weekday": "Wednesday", "time": "18:31", "utc_offset": "+00:00", "zone": "" }"#)),
        "a machine with no zone of its own says so rather than claiming one"
    );
    assert_eq!(
        rendered(&parts(2026, 9, 23, 3, 18, 31, -18_000), "America/Chicago"),
        render(&j(r#"{ "date": "2026-09-23", "weekday": "Wednesday", "time": "18:31", "utc_offset": "-05:00", "zone": "America/Chicago" }"#))
    );
    assert_eq!(
        rendered(&parts(2026, 1, 4, 0, 9, 5, -21_600), "America/Chicago"),
        render(&j(r#"{ "date": "2026-01-04", "weekday": "Sunday", "time": "09:05", "utc_offset": "-06:00", "zone": "America/Chicago" }"#)),
        "the same zone, an hour further west in winter: single-digit months, days and \
         hours keep their zeroes, and the offset follows the instant, not the name"
    );
    assert_eq!(
        rendered(&parts(2026, 9, 24, 4, 5, 1, 19_800), "Asia/Kolkata"),
        render(&j(r#"{ "date": "2026-09-24", "weekday": "Thursday", "time": "05:01", "utc_offset": "+05:30", "zone": "Asia/Kolkata" }"#)),
        "half-hour zones are real, so the offset's minutes are computed"
    );
}

#[test]
fn the_offset_carries_its_sign_and_its_minutes() {
    assert_eq!(offset_text(-18000), "-05:00");
    assert_eq!(offset_text(19800), "+05:30", "Asia/Kolkata");
    assert_eq!(offset_text(20700), "+05:45", "Asia/Kathmandu");
    assert_eq!(offset_text(0), "+00:00");
}

/// The name has to tell the same zone the clock beside it is on, and when the machine
/// names none the object says "" rather than guess: the live VM this issue was found on
/// had /etc/localtime pointing at America/Chicago while /etc/timezone still said
/// Etc/UTC, so anything past the two sources libc resolves would have been a coin flip.
#[test]
fn the_zone_is_the_one_the_machine_names_and_never_a_guess() {
    let chicago_link = Some("../usr/share/zoneinfo/America/Chicago");
    assert_eq!(
        zone_name_from(Some("Asia/Kolkata"), chicago_link),
        "Asia/Kolkata",
        "TZ is what libc consults first, so the name has to match it"
    );
    assert_eq!(
        zone_name_from(Some(":America/Denver"), None),
        "America/Denver",
        "a leading ':' introduces an IANA name and is stripped"
    );
    assert_eq!(
        zone_name_from(Some("/usr/share/zoneinfo/Asia/Kolkata"), None),
        "Asia/Kolkata",
        "a TZ pointing at a zone file names the zone it points at"
    );
    assert_eq!(
        zone_name_from(None, chicago_link),
        "America/Chicago",
        "the zoneinfo target of the /etc/localtime link"
    );
    assert_eq!(
        zone_name_from(Some(""), chicago_link),
        "",
        "an empty TZ runs the clock on UTC and names no zone; the link beside it \
         would name a zone the clock is not on"
    );
    assert_eq!(zone_name_from(None, None), "", "a machine with no zone file says so");
}

fn config(backend: &str, api_model: Option<&str>) -> Config {
    Config {
        user_name: "Configured".into(),
        companion_name: "Yantrik".into(),
        hub_repo: "org/models/qwen".into(),
        max_context_tokens: 4096,
        max_tokens: 512,
        backend: backend.into(),
        api_base_url: Some("http://localhost".into()),
        resolved_api_base_url: None,
        api_model: api_model.map(|m| m.to_string()),
        clouds: vec![Cloud { backend: "nimbus-cli".into(), name: "Nimbus".into() }],
    }
}

fn saved() -> Saved {
    Saved {
        dark_mode: true,
        tool_permission: "sensitive".into(),
        auto_lock_secs: 300,
        dnd_mode: false,
        accent_color: "blue".into(),
        wallpaper: String::new(),
        user_name: String::new(),
        companion_name: "Ada".into(),
    }
}

#[test]
fn a_person_reads_the_time_and_the_date() {
    assert_eq!(current_time_hhmm(9, 5), "09:05");
    assert_eq!(current_date_text(3, 8, 23), "Wednesday, September 23");
    assert_eq!(current_date_short(3, 8, 23), "Wed 23 Sep");
    for (hour, part) in [(5, "morning"), (12, "afternoon"), (18, "evening")] {
        assert!(time_of_day_greeting(hour).to_lowercase().contains(part), "{hour}");
    }
}

#[test]
fn a_colour_is_read_from_its_digits() {
    assert_eq!(parse_hex_color("#ff8000"), Some(Rgba { r: 255, g: 128, b: 0, a: 255 }));
    assert_eq!(parse_hex_color("#ff800040"), Some(Rgba { r: 255, g: 128, b: 0, a: 64 }));
    assert_eq!(parse_hex_color("#ff80"), None);
    assert_eq!(parse_hex_color("#gggggg"), None);
}

/// The last line about a colour counts, and a theme that is switched off changes nothing.
#[test]
fn a_theme_is_read_line_by_line() {
    let theme = theme_overrides("enabled: true\nbg_deep: \"#000000\"\nbg_deep: \"#010203\"\n").unwrap();
    assert_eq!(theme.named, 1);
    assert!(theme.colours.contains(&Some(Rgba { r: 1, g: 2, b: 3, a: 255 })));
    assert!(theme_overrides("enabled: false\nbg_deep: \"#010203\"\n").is_none());
}

/// What was saved wins over what is configured, and a cloud is named.
#[test]
fn the_shell_first_looks_as_it_was_left() {
    let (ctx, look) = AppContext::init(&saved(), &config("api", Some("gpt")), None, 9);
    assert_eq!((ctx.user_name.as_str(), ctx.companion_name.as_str()), ("Configured", "Ada"));
    assert_eq!(ctx.browser_path, "~");
    assert!(look.dark && look.provider.as_deref() == Some("gpt"));
    assert_eq!(provider_label(&config("Nimbus-CLI", Some("large"))).as_deref(), Some("Nimbus \u{b7} large"));
    assert_eq!(provider_label(&config("llama", None)).as_deref(), Some("qwen"));
    assert!(matches!(wallpaper("/tmp/a.png"), Wallpaper::File(p) if p == "/tmp/a.png"));
    assert!(matches!(wallpaper("aurora"), Wallpaper::Preset(p) if p == "aurora"));
    assert_eq!(picture_shown("/tmp/a.png", false), "");
    assert_eq!(picture_shown("/tmp/a.png", true), "/tmp/a.png");
    assert_eq!(display_resolution("eDP-1\n  1920x1080 px, 60 Hz\n  1280x720 px").as_deref(), Some("1920x1080"));
    assert_eq!(display_resolution("nothing"), None);
}

/// A streamed answer is put together, replaced when it starts over, and cut to what fits.
#[test]
fn an_answer_is_gathered_and_cut() {
    let mut reply = Reply::new();
    assert!(reply.piece("Hello "));
    assert!(reply.piece("there"));
    assert_eq!(reply.finish(None).as_deref(), Some("Hello there"));
    assert_eq!(Reply::new().finish(None), None);
    let cut = reply.finish(Some(8)).unwrap();
    assert!(cut.len() <= 11 && cut.starts_with("Hello"), "{cut}");
    let prompt = chat_prompt("and then?", &["a".to_string(), "b".to_string()]);
    assert!(prompt.contains("and then?") && prompt.contains('b'), "{prompt}");
    assert_eq!(chat_prompt("hi", &[]), "hi");
    let done = job_done("studio", "job-1", &"x".repeat(300));
    assert!(done.tool_name == "bg_job:studio:job-1" && done.preview.chars().count() == 200);
}

#[test]
fn the_first_address_is_the_one_shown() {
    assert_eq!(first_word_of(" 10.0.0.7 fe80::1 \n"), Some("10.0.0.7".to_string()));
    assert_eq!(first_word_of(" \n"), None);
}
