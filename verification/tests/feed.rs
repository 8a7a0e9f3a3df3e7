//! Sorting a streamed answer into prose and calls.
use yantrik_ui::agents::feed::{Piece, TrailLines};

fn feed(chunks: &[&str]) -> Vec<Piece> {
    let mut lines = TrailLines::default();
    let mut out: Vec<Piece> = chunks.iter().flat_map(|c| lines.push(c)).collect();
    out.extend(lines.finish());
    out
}

/// Prose as one string, calls by their one-line summary — the shape a reader cares about.
fn shape(pieces: &[Piece]) -> Vec<String> {
    let mut out: Vec<String> = Vec::new();
    for piece in pieces {
        match piece {
            Piece::Text(t) => match out.last_mut() {
                Some(last) if !last.starts_with("CALL ") => last.push_str(t),
                _ => out.push(t.clone()),
            },
            Piece::Call(c) => out.push(format!("CALL {}", c.summary())),
        }
    }
    out
}

#[test]
fn a_trail_line_split_across_chunks_is_one_call_between_the_prose() {
    let pieces = feed(&[
        "Making it ",
        "now.\n⚙️ os_act studio.gen",
        "erate {\"args\":{\"prompt\":\"a red kite\"}}\n\nDone: one picture.",
    ]);
    assert_eq!(
        shape(&pieces),
        vec![
            "Making it now.\n".to_string(),
            "CALL os_act studio.generate prompt=\"a red kite\"".to_string(),
            "\nDone: one picture.".to_string(),
        ]
    );
}

#[test]
fn prose_is_not_held_back_waiting_for_a_newline() {
    let mut lines = TrailLines::default();
    assert_eq!(lines.push("Hel"), vec![Piece::Text("Hel".into())], "said at once");
    assert_eq!(lines.push("lo"), vec![Piece::Text("lo".into())]);
    // A line that might be a call is held until it is whole.
    assert_eq!(lines.push("\n⚙️ os_apps"), vec![Piece::Text("\n".into())]);
    let rest = lines.finish();
    assert!(matches!(&rest[..], [Piece::Call(c)] if c.name == "os_apps"), "{rest:?}");
}

#[test]
fn hermes_verbose_form_waits_one_line_for_its_arguments() {
    let pieces = feed(&[
        "⚙️ mcp_yantrik_os_os_act(['app', 'action', 'args'])\n",
        "{\"app\": \"studio\", \"action\": \"generate\", \"args\": {\"prompt\": \"a kite\"}}\n",
        "ok",
    ]);
    assert_eq!(
        shape(&pieces),
        vec!["CALL mcp_yantrik_os_os_act studio.generate prompt=\"a kite\"".to_string(), "ok".to_string()]
    );
}

#[test]
fn a_gear_in_prose_or_in_a_code_fence_is_not_a_call() {
    let pieces = feed(&["The gear ⚙️ opens settings.\n```\n⚙️ os_apps\n```\n"]);
    assert!(pieces.iter().all(|p| matches!(p, Piece::Text(_))), "{pieces:?}");
}

#[test]
fn hermes_default_line_is_a_name_and_nothing_more() {
    let pieces = feed(&["⚙️ mcp_yantrik_os_os_act...\n", "Done."]);
    assert_eq!(shape(&pieces), vec!["CALL mcp_yantrik_os_os_act".to_string(), "Done.".to_string()]);
}

/// A fence whose line comes in two chunks is a fence.
#[test]
fn a_gear_in_a_fence_is_code_however_the_fence_is_cut() {
    let delta = "\n\u{2699}\u{fe0f} os_apps\n```\n";
    let mut lines = TrailLines::default();
    assert_eq!(lines.push("```"), vec![Piece::Text("```".into())]);
    let pieces = lines.push(delta);
    assert!(pieces.iter().all(|p| matches!(p, Piece::Text(_))), "{pieces:?}");
    assert_eq!(prose(&pieces), delta);
    // The closing fence closed it: a call after it is a call.
    let after = lines.push("\u{2699}\u{fe0f} os_apps\n");
    assert!(matches!(&after[..], [Piece::Call(c)] if c.name == "os_apps"), "{after:?}");

    // A line that only ends in ticks is no fence, wherever it is cut.
    let mut lines = TrailLines::default();
    lines.push("not one: ");
    lines.push("```\n");
    let after = lines.push("\u{2699}\u{fe0f} os_apps\n");
    assert!(matches!(&after[..], [Piece::Call(_)]), "{after:?}");
}

/// The prose of the pieces, joined.
fn prose(pieces: &[Piece]) -> String {
    pieces
        .iter()
        .map(|p| match p {
            Piece::Text(t) => t.as_str(),
            Piece::Call(_) => panic!("a call"),
        })
        .collect()
}

/// Without a gear everything comes back, however it was cut, and nothing visible waits.
#[test]
fn without_a_gear_nothing_is_lost() {
    let answer = "One \u{e9}\n\n  two\n```\ncode\n```\n   ";
    let all: Vec<char> = answer.chars().collect();
    for size in 1..=all.len() {
        let mut lines = TrailLines::default();
        let mut told = String::new();
        let mut given = String::new();
        for chunk in all.chunks(size) {
            let delta: String = chunk.iter().collect();
            given.push_str(&delta);
            told.push_str(&prose(&lines.push(&delta)));
            let line = given.rsplit('\n').next().unwrap();
            if line.is_empty() || !line.trim_start().is_empty() {
                assert_eq!(told, given, "nothing is held back");
            }
        }
        told.push_str(&prose(&lines.finish()));
        assert_eq!(told, answer, "in chunks of {size}");
    }
}
