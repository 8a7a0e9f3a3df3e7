//! Naming the program that is asking.
use yantrik_ui::caller_identity::{
    identify, mind_for, mismatch, parse_cmdline, parse_ppid, parse_stat, readable_cmdline, resolve_with, settled_facts,
    CallerIdentity, Mind, ProcessFacts, Walk, CMDLINE_CHARS, WARNING_CHARS,
};

fn facts(pid: i32, exe: &str, cmdline: &str) -> ProcessFacts {
    ProcessFacts {
        pid,
        exe: exe.to_string(),
        short_cmdline: cmdline.to_string(),
        started: pid as u64 * 100,
    }
}

fn hermes() -> Vec<Mind> {
    vec![
        Mind { id: "companion".into(), name: "Companion".into() },
        Mind { id: "hermes".into(), name: "Hermes Agent".into() },
    ]
}

fn hermes_chain() -> Vec<ProcessFacts> {
    vec![
        facts(7311, "/usr/bin/python3.11", "python3 yos act calendar delete_event id=evt-3"),
        facts(7300, "/usr/bin/python3.11", "python3 yos-mcp"),
        facts(696, "/home/pranab/hermes-agent/venv/bin/python", "python -m hermes_cli.main gateway run"),
        facts(1, "/usr/lib/systemd/systemd", "systemd --user"),
    ]
}

// ── The /proc text parsers ──

#[test]
fn caller_identity_stat_is_parsed_from_the_last_paren() {
    // The ordinary case first: `1234 (bash) S 1200 …`, starttime at field 22.
    let ordinary = "1234 (bash) S 1200 1234 1234 34816 1300 4194304 900 0 0 0 5 2 0 0 20 0 \
                    1 0 987654 12345678 900 18446744073709551615";
    let parsed = parse_stat(ordinary).expect("an ordinary stat line");
    assert_eq!(parsed.ppid, 1200);
    assert_eq!(parsed.started, 987654);

    // And the one that breaks every naive parser: the comm field is whatever the program
    // called itself, parentheses and spaces included, and the kernel does not escape it.
    let awkward = "1234 (my (weird) name) S 1200 1234 1234 34816 1300 4194304 900 0 0 0 5 2 \
                   0 0 20 0 1 0 987654 12345678 900 18446744073709551615";
    let parsed = parse_stat(awkward).expect("a comm with spaces and parens");
    assert_eq!(parsed.ppid, 1200, "splitting from the left would have read `weird` here");
    assert_eq!(parsed.started, 987654);
}

#[test]
fn caller_identity_an_unreadable_stat_is_none_not_a_guess() {
    assert_eq!(parse_stat(""), None, "a process that vanished mid-read");
    assert_eq!(parse_stat("1234 (bash"), None, "a truncated line");
    assert_eq!(parse_stat("1234 (bash) S 1200"), None, "no start time in it");
}

#[test]
fn caller_identity_ppid_comes_out_of_status_too() {
    let status = "Name:\tyos\nUmask:\t0022\nState:\tS (sleeping)\nTgid:\t7311\n\
                  Ngid:\t0\nPid:\t7311\nPPid:\t7300\nTracerPid:\t0\nUid:\t1000\t1000\n";
    assert_eq!(parse_ppid(status), Some(7300));
    assert_eq!(parse_ppid("Name:\tinit\n"), None, "no PPid line at all");
    assert_eq!(parse_ppid(""), None, "an empty read is not a parent of zero");
}

#[test]
fn caller_identity_cmdline_is_nul_separated_and_shortened() {
    // What /proc actually hands over, trailing NUL and all.
    let raw = b"/home/pranab/hermes-agent/venv/bin/python\0-m\0hermes_cli.main\0gateway\0run\0";
    assert_eq!(parse_cmdline(raw), "python -m hermes_cli.main gateway run");

    // A relative path is left alone: `./deploy.py` is what the person typed.
    assert_eq!(parse_cmdline(b"python3\0./deploy.py\0"), "python3 ./deploy.py");

    // A kernel thread, and a process that exited between two reads.
    assert_eq!(parse_cmdline(b""), "");
    assert_eq!(parse_cmdline(b"\0\0"), "");

    // Bounded, and it says so rather than pretending that was the whole command.
    let long = parse_cmdline(&[b"yos\0act\0notes\0append\0text=".to_vec(), vec![b'x'; 200]].concat());
    assert!(long.chars().count() <= CMDLINE_CHARS + 1, "{long}");
    assert!(long.ends_with('\u{2026}'), "a cut line has to look cut: {long}");
}

// ── Choosing what to name ──

#[test]
fn caller_identity_the_bridge_is_skipped_and_the_mind_is_named() {
    let who = identify(hermes_chain(), &hermes());

    assert_eq!(who.direct.as_ref().map(|f| f.pid), Some(7311), "the peer is still recorded");
    assert_eq!(
        who.recognisable.as_ref().map(|f| f.pid),
        Some(696),
        "yos and yos-mcp are ours; the first thing a person would recognise is above them"
    );
    assert_eq!(who.attached_mind.as_deref(), Some("Hermes Agent"));
    assert!(who.line().contains("hermes_cli.main"), "{}", who.line());
    assert!(who.line().contains("pid 696"), "{}", who.line());
    assert!(who.line().contains("the attached mind"), "{}", who.line());
    assert_eq!(who.pid(), 696);
    assert!(who.exe().ends_with("venv/bin/python"), "{}", who.exe());
}

#[test]
fn caller_identity_a_bare_yos_in_the_terminal_names_the_terminal() {
    // What somebody typing `yos act shell open_app name=notes` into the Terminal app looks
    // like from the socket: the peer is ours, the shell is plumbing, and the app they are
    // actually sitting in is two steps up.
    let chain = vec![
        facts(9001, "/usr/bin/python3.11", "python3 yos act shell open_app name=notes"),
        facts(8800, "/usr/bin/bash", "bash"),
        facts(812, "/usr/bin/yantrik-terminal", "yantrik-terminal"),
        facts(1, "/usr/lib/systemd/systemd", "systemd --user"),
    ];
    let who = identify(chain, &hermes());

    assert_eq!(who.recognisable.as_ref().map(|f| f.pid), Some(812));
    assert_eq!(who.attached_mind, None, "nobody's mind typed this");
    assert!(who.via_shell, "a bash stood between the peer and the terminal");
    assert!(who.line().contains("yantrik-terminal"), "{}", who.line());
    assert!(who.line().contains("terminal"), "{}", who.line());
}

#[test]
fn a_script_run_from_the_terminal_app_is_not_the_attached_mind() {
    // forge.py claimed to be Hermes and was launched from the Terminal app, whose ancestry
    // is /opt/yantrik/bin/yantrik-terminal ← /opt/yantrik/bin/yantrik-ui. "yantrik" is a
    // token of "Yantrik Companion", and the card said "python3 forge.py · the attached mind".
    let chain = vec![
        facts(9001, "/usr/bin/python3.13", "python3 forge.py"),
        facts(9000, "/opt/yantrik/bin/yantrik-terminal", "/opt/yantrik/bin/yantrik-terminal"),
        facts(8000, "/opt/yantrik/bin/yantrik-ui", "/opt/yantrik/bin/yantrik-ui /opt/yantrik/config.yaml"),
    ];
    let minds = vec![
        Mind { id: "companion".into(), name: "Yantrik Companion".into() },
        Mind { id: "hermes".into(), name: "Hermes Agent".into() },
        Mind { id: "mind".into(), name: "Yantrik Mind".into() },
    ];
    assert_eq!(mind_for(&chain, &minds), None, "the desktop's own binaries name no mind");
    // ...while a real Hermes gateway process still matches by its own command line.
    let hermes = vec![facts(7000, "/home/u/.local/bin/python3.11", "python -m hermes_cli.main gateway")];
    assert_eq!(mind_for(&hermes, &minds).as_deref(), Some("Hermes Agent"));
}

#[test]
fn caller_identity_a_script_over_ssh_names_the_script() {
    let chain = vec![
        facts(5501, "/usr/bin/python3.11", "python3 yos act files delete name=x"),
        facts(5500, "/usr/bin/python3.11", "python3 nightly.py"),
        facts(5400, "/usr/bin/bash", "bash -c python3 /srv/nightly.py"),
        facts(5300, "/usr/sbin/sshd", "sshd: pranab@notty"),
        facts(1, "/usr/lib/systemd/systemd", "systemd"),
    ];
    let who = identify(chain, &hermes());

    assert_eq!(
        who.recognisable.as_ref().map(|f| f.pid),
        Some(5500),
        "the script is above the bridge and below the shell; it is the thing to name"
    );
    assert!(who.line().contains("nightly.py"), "{}", who.line());
    assert_eq!(who.attached_mind, None);
}

#[test]
fn caller_identity_a_bash_running_a_script_is_not_a_bare_shell() {
    // The distinction the skip list rests on. `bash deploy.sh` is a program somebody wrote.
    let chain = vec![
        facts(4400, "/usr/bin/python3.11", "python3 yos describe shell"),
        facts(4300, "/usr/bin/bash", "bash deploy.sh"),
        facts(1, "/usr/lib/systemd/systemd", "systemd --user"),
    ];
    let who = identify(chain, &hermes());
    assert_eq!(who.recognisable.as_ref().map(|f| f.pid), Some(4300));
    assert!(who.line().contains("deploy.sh"), "{}", who.line());
}

#[test]
fn caller_identity_nothing_recognisable_still_names_the_peer() {
    // Everything above the peer was ours or unreadable. Naming the peer is worth more than
    // naming nothing: it is a real pid and a real binary, just not an interesting one.
    let chain = vec![
        facts(4242, "/usr/bin/python3.11", "python3 script.py"),
        facts(4100, "/usr/bin/bash", "bash"),
    ];
    let who = identify(chain, &hermes());
    assert_eq!(who.recognisable.as_ref().map(|f| f.pid), Some(4242));
    assert!(who.line().contains("script.py"), "{}", who.line());

    // And when the ONLY thing in the chain is our own plumbing, there is nothing above it.
    let only_ours =
        identify(vec![facts(4242, "/usr/bin/python3.11", "python3 yos act shell x")], &hermes());
    assert_eq!(only_ours.recognisable, None);
    assert!(only_ours.line().contains("pid 4242"), "{}", only_ours.line());
}

#[test]
fn caller_identity_knowing_nothing_says_so_rather_than_leaving_a_blank() {
    let nothing = CallerIdentity::unknown();
    assert_eq!(nothing.line(), "could not be identified");
    assert_eq!(nothing.exe(), "");
    assert_eq!(nothing.pid(), 0);

    // An empty chain is the same answer, and the card must never render an empty line.
    let empty = identify(Vec::new(), &hermes());
    assert_eq!(empty.line(), "could not be identified");
    assert!(!empty.line().is_empty());
}

#[test]
fn caller_identity_the_session_manager_is_never_the_answer() {
    // "systemd --user is asking to use this machine" is true of everything on this desktop.
    let chain = vec![
        facts(3001, "/usr/bin/python3.11", "python3 yos act shell x"),
        facts(1, "/usr/lib/systemd/systemd", "systemd --user"),
    ];
    let who = identify(chain, &hermes());
    assert_eq!(who.recognisable, None, "the walk stops at the session manager");
    assert!(!who.line().contains("systemd"), "{}", who.line());
}

#[test]
fn caller_identity_a_short_mind_name_cannot_match_half_the_process_table() {
    // A mind called "AI" would otherwise match `/usr/bin/chain` and every path with an `ai`
    // in it. Four characters is the bar, and an id gets the same treatment as a name.
    let minds = vec![Mind { id: "ai".into(), name: "AI".into() }];
    let who = identify(hermes_chain(), &minds);
    assert_eq!(who.attached_mind, None);

    // While a real name matches on any one of its distinctive words.
    let who = identify(hermes_chain(), &[Mind { id: "h".into(), name: "Hermes".into() }]);
    assert_eq!(who.attached_mind.as_deref(), Some("Hermes"));
}

#[test]
fn caller_identity_our_own_bridge_cannot_stand_in_for_a_mind() {
    // If the bridge's own path carried a mind's name, matching it would let any caller at
    // all borrow that mind's identity simply by going through the bridge everybody uses.
    let chain = vec![
        facts(2001, "/usr/bin/python3.11", "python3 /opt/hermes/bin/yos act shell x"),
        facts(2000, "/usr/bin/python3.11", "python3 /opt/hermes/bin/yos-mcp"),
        facts(1900, "/usr/bin/curl", "curl --unix-socket app-shell.sock"),
    ];
    let who = identify(chain, &hermes());
    assert_eq!(who.attached_mind, None, "the path of OUR bridge is not evidence about a mind");
    assert!(who.line().contains("curl"), "{}", who.line());
}

// ── The claim against the ancestry ──

#[test]
fn caller_identity_a_borrowed_name_is_called_out() {
    let chain = vec![
        facts(2001, "/usr/bin/python3.11", "python3 yos act calendar delete_event id=evt-3"),
        facts(1900, "/home/pranab/tmp/helper", "helper --quiet"),
        facts(1800, "/usr/bin/bash", "bash"),
    ];
    let who = identify(chain, &hermes());
    let said = mismatch("Hermes Agent 0.14.0", &who, &hermes());
    assert!(said.contains("Hermes Agent"), "{said}");
    assert!(!said.is_empty());

    // And the honest case says nothing, so the warning still means something when it fires.
    assert_eq!(mismatch("Hermes Agent 0.14.0", &identify(hermes_chain(), &hermes()), &hermes()), "");
}

#[test]
fn caller_identity_a_name_no_mind_uses_is_not_a_mismatch() {
    // "Your bank" is not a claim this can contradict — no mind here is called that, so there
    // is nothing to disagree with. The card already prints the verified program beside it,
    // which is the answer. A warning here would fire on every ordinary unnamed caller and
    // train people to ignore the one that matters.
    let chain = vec![facts(2001, "/usr/bin/curl", "curl --unix-socket app-shell.sock")];
    let who = identify(chain, &hermes());
    assert_eq!(mismatch("Your bank", &who, &hermes()), "");
    assert_eq!(mismatch("", &who, &hermes()), "");
}

#[test]
fn caller_identity_nothing_known_is_not_a_disagreement() {
    // /proc gave nothing. That is not evidence that the claim is false, and saying so would
    // be the machine asserting something it does not know.
    assert_eq!(mismatch("Hermes Agent", &CallerIdentity::unknown(), &hermes()), "");
}

#[test]
fn caller_identity_the_warning_is_one_bounded_line() {
    let long = vec![Mind {
        id: "x".into(),
        name: "A Mind With A Preposterously Long Self Chosen Name Indeed".into(),
    }];
    let chain = vec![facts(2001, "/usr/bin/curl", "curl")];
    let said = mismatch(&long[0].name, &identify(chain, &long), &long);
    assert!(!said.is_empty());
    assert!(said.chars().count() <= WARNING_CHARS + 1, "{} chars: {said}", said.chars().count());
    assert!(!said.contains('\n'), "one line: {said}");
}

// ── The walk itself ──


#[test]
fn caller_identity_a_pid_that_is_not_there_is_not_an_error() {
    // Every /proc read is allowed to fail, and the commonest one does: the direct peer is
    // `yos`, which has usually exited before anybody looks at the card.
    let gone = resolve_with(Walk::new(0), &[]);
    assert_eq!(gone.line(), "could not be identified");
    // A pid above the maximum cannot exist, so this is the "process vanished" path exactly.
    let mut never = Walk::new(i32::MAX);
    assert_eq!(never.next(), Some(i32::MAX));
    never.saw(None);
    assert_eq!(never.next(), None);
    let never = never.into_chain();
    assert!(never.is_empty(), "{never:?}");
}

/// A pid that was reused between the two reads belongs to nobody.
#[test]
fn facts_hold_only_where_the_process_did_not_move() {
    let stat = |started: u64| {
        format!("42 (a b) S 7 1 1 0 -1 0 0 0 0 0 0 0 0 0 20 0 1 0 {started} 0 0")
    };
    let (facts, parent) = settled_facts(42, &stat(900), "/usr/bin/x", b"/usr/bin/x\0-v\0", &stat(900)).unwrap();
    assert_eq!((facts.pid, facts.started, parent), (42, 900, 7));
    assert_eq!(facts.short_cmdline, "x -v");
    assert!(settled_facts(42, &stat(900), "/usr/bin/x", b"x", &stat(901)).is_none());
    assert!(settled_facts(42, "", "/usr/bin/x", b"x", &stat(900)).is_none());
    assert_eq!(readable_cmdline("/opt/a/b\0\0--flag\0"), "b --flag");
}
