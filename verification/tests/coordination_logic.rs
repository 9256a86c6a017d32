//! The coordination scenarios: every participant of a stage opens its
//! session concurrently; the test interleaves the sessions step by step,
//! as the per-connection handlers would run, and checks each verdict.

use criu_coordinator::messages::Response;
use criu_coordinator::server::{Server, Session, SessionStep};
use criu_coordinator::wire::encode_header;

#[derive(Clone, Copy)]
struct Step {
    id: &'static str,
    deps: &'static str,
    action: &'static str,
    expect: &'static str, // Expected response token
}

// Represents a scenario with a name and the sequence of client request steps to execute.
struct Scenario {
    name: &'static str,
    stages: Vec<Vec<Step>>,
}

/// Opens one session the way the connection handler does: encode the
/// header, read it back, dispatch.
fn open_step(server: &mut Server, step: Step) -> (Session, Option<Response>) {
    let header = encode_header(step.id, step.action, step.deps).expect("header fields are clean");
    let msg = server
        .read_message(header.as_str())
        .expect("the header must parse");
    server.open_session(msg)
}

/// Runs the sessions of one stage to completion, interleaved round-robin,
/// and returns each session's verdict in stage order.
fn run_stage(server: &mut Server, stage: &[Step]) -> Vec<Response> {
    let mut sessions: Vec<(Session, Option<Response>)> = Vec::new();
    for step in stage {
        let opened = open_step(server, *step);
        sessions.push(opened);
    }
    // Interleave: each pass gives every undecided session one step; a pass
    // stands for one second of wall-clock time in the real server, so a
    // session that replies during a pass closes at the end of that pass,
    // as its peers observe it during the same second.
    let mut rounds = 0;
    loop {
        let mut all_done = true;
        let mut replied_now: Vec<usize> = Vec::new();
        for (idx, entry) in sessions.iter_mut().enumerate() {
            if entry.1.is_some() {
                continue;
            }
            loop {
                match server.advance_session(&mut entry.0) {
                    SessionStep::Progress => continue,
                    SessionStep::Wait => break,
                    SessionStep::Reply(r) => {
                        entry.1 = Some(r);
                        replied_now.push(idx);
                        break;
                    }
                }
            }
            if entry.1.is_none() {
                all_done = false;
            }
        }
        for idx in replied_now {
            server.close_session(&sessions[idx].0);
        }
        if all_done {
            break;
        }
        rounds += 1;
        assert!(rounds < 1000, "stage did not settle");
    }
    sessions.into_iter().map(|e| e.1.unwrap()).collect()
}

fn run_test(s: Scenario) {
    println!("\n================  {}  =================\n", s.name);

    let mut server = Server::new("127.0.0.1", 8080, 5);

    for (i, stage) in s.stages.iter().enumerate() {
        if stage.is_empty() {
            continue;
        }
        println!("\n--- Running Stage {}: Action '{}' ---\n", i + 1, stage[0].action);
        let verdicts = run_stage(&mut server, stage);
        for (step, verdict) in stage.iter().zip(verdicts.iter()) {
            assert_eq!(
                verdict.text(),
                step.expect,
                "Scenario '{}': step {{id: {}, action: {}}} expected '{}' but got '{}'",
                s.name,
                step.id,
                step.action,
                step.expect,
                verdict.text()
            );
        }
    }
}

#[test]
fn dump_single_client() {
    run_test(Scenario {
        name: "Checkpoint single client",
        stages: vec![
            vec![Step { id: "A", deps: "", action: "pre-dump", expect: "ACK" }],
            vec![Step { id: "A", deps: "", action: "post-dump", expect: "ACK" }],
        ],
    });
}

#[test]
fn restore_single_client() {
    run_test(Scenario {
        name: "Restore single client",
        stages: vec![
            vec![Step { id: "A", deps: "", action: "pre-restore", expect: "ACK" }],
        ],
    });
}

#[test]
fn dump_single_client_with_nonexistent_dep() {
    run_test(Scenario {
        name: "Checkpoint single client with nonexistent dep",
        stages: vec![
            vec![Step { id: "A", deps: "B", action: "pre-dump", expect: "timeout" }],
        ],
    });
}

#[test]
fn restore_single_client_with_nonexistent_dep() {
    run_test(Scenario {
        name: "Restore single client with nonexistent dep",
        stages: vec![
            vec![Step { id: "A", deps: "B", action: "pre-restore", expect: "timeout" }],
        ],
    });
}

#[test]
fn dump_two_interdependent_clients() {
    run_test(Scenario {
        name: "Checkpoint two interdependent clients",
        stages: vec![
            vec![
                Step { id: "A", deps: "B", action: "pre-dump", expect: "ACK" },
                Step { id: "B", deps: "A", action: "pre-dump", expect: "ACK" },
            ],
            vec![
                Step { id: "A", deps: "B", action: "post-dump", expect: "ACK" },
                Step { id: "B", deps: "A", action: "post-dump", expect: "ACK" },
            ],
        ],
    });
}

#[test]
fn restore_two_interdependent_clients() {
    run_test(Scenario {
        name: "Restore two interdependent clients",
        stages: vec![
            vec![
                Step { id: "A", deps: "B", action: "pre-restore", expect: "ACK" },
                Step { id: "B", deps: "A", action: "pre-restore", expect: "ACK" },
            ],
        ],
    });
}

#[test]
fn dump_three_interdependent_clients() {
    run_test(Scenario {
        name: "Checkpoint three interdependent clients",
        stages: vec![
            vec![
                Step { id: "A", deps: "B:C", action: "pre-dump", expect: "ACK" },
                Step { id: "B", deps: "A:C", action: "pre-dump", expect: "ACK" },
                Step { id: "C", deps: "A:B", action: "pre-dump", expect: "ACK" },
            ],
            vec![
                Step { id: "A", deps: "B:C", action: "post-dump", expect: "ACK" },
                Step { id: "B", deps: "A:C", action: "post-dump", expect: "ACK" },
                Step { id: "C", deps: "A:B", action: "post-dump", expect: "ACK" },
            ],
        ],
    });
}

#[test]
fn restore_three_interdependent_clients() {
    run_test(Scenario {
        name: "Restore three interdependent clients",
        stages: vec![
            vec![
                Step { id: "A", deps: "B:C", action: "pre-restore", expect: "ACK" },
                Step { id: "B", deps: "A:C", action: "pre-restore", expect: "ACK" },
                Step { id: "C", deps: "A:B", action: "pre-restore", expect: "ACK" },
            ],
        ],
    });
}

#[test]
fn dump_and_restore_three_interdependent_clients() {
    run_test(Scenario {
        name: "Checkpoint and restore three interdependent clients",
        stages: vec![
            vec![
                Step { id: "A", deps: "B:C", action: "pre-dump", expect: "ACK" },
                Step { id: "B", deps: "A:C", action: "pre-dump", expect: "ACK" },
                Step { id: "C", deps: "A:B", action: "pre-dump", expect: "ACK" },
            ],
            vec![
                Step { id: "A", deps: "B:C", action: "post-dump", expect: "ACK" },
                Step { id: "B", deps: "A:C", action: "post-dump", expect: "ACK" },
                Step { id: "C", deps: "A:B", action: "post-dump", expect: "ACK" },
            ],
            vec![
                Step { id: "A", deps: "B:C", action: "pre-restore", expect: "ACK" },
                Step { id: "B", deps: "A:C", action: "pre-restore", expect: "ACK" },
                Step { id: "C", deps: "A:B", action: "pre-restore", expect: "ACK" },
            ],
        ],
    });
}

#[test]
fn dump_and_restore_client_server_with_network_hooks() {
    run_test(Scenario {
        name: "Checkpoint and restore a client-server with network hooks",
        stages: vec![
            // Checkpointing phase
            vec![
                Step { id: "B", deps: "", action: "pre-dump", expect: "ACK" },
                Step { id: "A", deps: "B", action: "pre-dump", expect: "ACK" },
            ],
            vec![
                Step { id: "B", deps: "", action: "network-lock", expect: "ACK" },
                Step { id: "A", deps: "B", action: "network-lock", expect: "ACK" },
            ],
            vec![
                Step { id: "B", deps: "", action: "post-dump", expect: "ACK" },
                Step { id: "A", deps: "B", action: "post-dump", expect: "ACK" },
            ],
            // Restore phase
            vec![
                Step { id: "B", deps: "", action: "pre-restore", expect: "ACK" },
                Step { id: "A", deps: "B", action: "pre-restore", expect: "ACK" },
            ],
            vec![
                Step { id: "B", deps: "", action: "post-restore", expect: "ACK" },
                Step { id: "A", deps: "B", action: "post-restore", expect: "ACK" },
            ],
            vec![
                Step { id: "B", deps: "", action: "network-unlock", expect: "ACK" },
                Step { id: "A", deps: "B", action: "network-unlock", expect: "ACK" },
            ],
            vec![
                Step { id: "B", deps: "", action: "post-resume", expect: "ACK" },
                Step { id: "A", deps: "B", action: "post-resume", expect: "ACK" },
            ],
        ],
    });
}
