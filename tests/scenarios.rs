use script_harness::engine::{fail_line, transcript_line, FullRead, ReadEvent, ReadStep, Session};
use script_harness::runner::{exit_code, schedule, Harness, RunStep};
use script_harness::script::{parse_line, Directive};
use script_harness::token::Profile;

/// A peer held in memory: what the harness wrote, what the peer has queued
/// for it, and how the peer answers each write.
struct Peer {
    written: Vec<Vec<u8>>,
    queued: Vec<u8>,
    answer: fn(&[u8]) -> Vec<u8>,
}

#[derive(Debug, PartialEq)]
enum Abort {
    Syntax,
    Truncated,
}

/// Runs a script against `peer`, handing bytes over one at a time.
fn run(profile: Profile, script: &str, peer: &mut Peer) -> Result<(bool, Vec<String>), Abort> {
    let mut transcript = Vec::new();
    let mut session = Session::new();
    for line in script.lines() {
        match parse_line(profile, line.as_bytes()).map_err(|_| Abort::Syntax)? {
            Directive::Skip => {}
            Directive::Send(buf) => {
                transcript.push(String::from_utf8(transcript_line(true, &buf)).unwrap());
                let reply = (peer.answer)(&buf);
                peer.queued.extend(reply);
                peer.written.push(buf);
            }
            Directive::Expect(pattern) => {
                let mut buf = vec![0u8; pattern.len()];
                let mut fill = FullRead::new(buf.len());
                while !fill.is_complete() {
                    let ev = if peer.queued.is_empty() {
                        ReadEvent::Data(0)
                    } else {
                        buf[fill.filled()] = peer.queued.remove(0);
                        ReadEvent::Data(1)
                    };
                    if fill.on_read(ev) == ReadStep::Truncated {
                        return Err(Abort::Truncated);
                    }
                }
                transcript.push(String::from_utf8(transcript_line(false, &buf)).unwrap());
                for m in session.check_response(&pattern, &buf) {
                    transcript.push(String::from_utf8(fail_line(&m)).unwrap());
                }
            }
        }
    }
    Ok((session.passed(), transcript))
}

fn echo_payload(sent: &[u8]) -> Vec<u8> {
    if sent.first() == Some(&2) { sent[1..].to_vec() } else { Vec::new() }
}

fn answer_nop(_: &[u8]) -> Vec<u8> {
    vec![0xa7]
}

fn silent(_: &[u8]) -> Vec<u8> {
    Vec::new()
}

fn peer(answer: fn(&[u8]) -> Vec<u8>) -> Peer {
    Peer { written: Vec::new(), queued: Vec::new(), answer }
}

#[test]
fn echo_round_trip() {
    let mut p = peer(echo_payload);
    let (passed, transcript) = run(Profile::Port, "< ECHO 0x41 0x42\n> 0x41 0x42\n", &mut p).unwrap();
    assert!(passed);
    assert_eq!(transcript, vec!["< [2, 65, 66]".to_string(), "> [65, 66]".to_string()]);
    assert_eq!(p.written, vec![vec![2, 65, 66]]);
    assert_eq!(exit_code(&[passed]), 0);
}

#[test]
fn wildcard_tolerance() {
    let mut p = peer(answer_nop);
    let (passed, transcript) = run(Profile::Port, "< NOP\n> _\n", &mut p).unwrap();
    assert!(passed);
    assert_eq!(transcript, vec!["< [0]".to_string(), "> [167]".to_string()]);
}

#[test]
fn mismatch_reported_run_continues() {
    let mut p = peer(echo_payload);
    let script = "< ECHO 0x01\n> 0x02\n< ECHO 0x03\n> 0x03\n";
    let (passed, transcript) = run(Profile::Port, script, &mut p).unwrap();
    assert!(!passed);
    let fails: Vec<&String> = transcript.iter().filter(|l| l.starts_with("FAIL")).collect();
    assert_eq!(fails, vec!["FAIL: read 0x01, expected 0x02"]);
    assert_eq!(p.written, vec![vec![2, 1], vec![2, 3]]);
    assert_eq!(transcript.last().unwrap(), "> [3]");
    assert_eq!(exit_code(&[passed]), 1);
}

#[test]
fn daemon_initiated_handshake() {
    let harness = Harness::daemon();
    let script = "> CMD_OPEN _ _\n";
    let mut p = peer(silent);
    p.queued = vec![0x01, 0x09, 0x08];
    assert!(run(harness.profile, script, &mut p).unwrap().0);
    let mut p = peer(silent);
    p.queued = vec![0x02, 0x09, 0x08];
    assert!(!run(harness.profile, script, &mut p).unwrap().0);
}

#[test]
fn directory_enumeration() {
    let scripts = ["< ECHO 5\n> 5\n", "< ECHO 5\n> 6\n"];
    let mut results = Vec::new();
    let mut running = 0;
    let mut connections = 0;
    for step in schedule(scripts.len(), Harness::port().pause_ms) {
        if let RunStep::Script(i) = step {
            running += 1;
            let mut p = peer(echo_payload);
            connections += 1;
            results.push(run(Profile::Port, scripts[i], &mut p).unwrap().0);
        }
    }
    assert_eq!(running, 2);
    assert_eq!(connections, 2);
    assert_eq!(results, vec![true, false]);
    assert_eq!(exit_code(&results), 1);
}

#[test]
fn truncation_aborts() {
    let mut p = peer(silent);
    p.queued = vec![1, 2];
    assert_eq!(run(Profile::Port, "> 1 2 3 4\n", &mut p), Err(Abort::Truncated));
}

#[test]
fn empty_script_no_io() {
    let mut p = peer(echo_payload);
    let (passed, transcript) = run(Profile::Port, "", &mut p).unwrap();
    assert!(passed);
    assert!(transcript.is_empty());
    assert!(p.written.is_empty());
}

#[test]
fn invalid_token_aborts_without_success() {
    let mut p = peer(echo_payload);
    assert_eq!(run(Profile::Port, "< ECHO 1\n> 1\n< BOGUS\n", &mut p), Err(Abort::Syntax));
}
