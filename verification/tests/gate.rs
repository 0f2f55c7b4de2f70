use paygate::amount::Amount;
use paygate::asset::{resolve, Network};
use paygate::client::{AgentError, AgentStep, ClientPolicy, PaymentAgent};
use paygate::header::{DEFAULT_CLOCK_SKEW, X402_VERSION};
use paygate::requirements::parse_requirements;
use paygate::server::{
    GateState, GateStep, PaymentGate, RouteConfig, SettleDirective, VerifyOutcome, VerifyStep,
};
use paygate::tag::{MaxEntry, PriceTag, PriceTagSetBuilder};

const EVM_PAYEE: &str = "0xf2757Fe8Ba90ad98dAed8e6254bA9A677069826a";
const SOL_PAYEE: &str = "11111111111111111111111111111112";
const NOW: u64 = 1_700_000_000;

fn tag(n: Network, units: u128, payee: &str) -> PriceTag {
    let asset = resolve(&n, &b"USDC".to_vec()).unwrap();
    PriceTag::new(asset, Amount::from_units(units).unwrap(), payee.as_bytes().to_vec())
        .unwrap()
}

/// The route of the discovery service: Solana USDC 0.001 preferred,
/// Base Sepolia USDC 0.001 as fallback.
fn discover_route() -> RouteConfig {
    let mut b = PriceTagSetBuilder::new();
    b.or_tag(tag(Network::BaseSepolia, 1_000, EVM_PAYEE));
    b.prefer(tag(Network::Solana, 1_000, SOL_PAYEE));
    RouteConfig {
        tags: b.build().unwrap(),
        resource: b"http://localhost:8080/discover".to_vec(),
        description: b"MCP Discovery Service".to_vec(),
        mime_type: b"application/json".to_vec(),
        accepted_version: X402_VERSION,
        clock_skew: DEFAULT_CLOCK_SKEW,
        max_verify_attempts: 3,
    }
}

#[test]
fn no_header_yields_402_and_never_the_handler() {
    let mut gate = PaymentGate::new(discover_route());
    match gate.on_request(None, NOW) {
        GateStep::Respond { status, body } => {
            assert_eq!(status, 402);
            let doc = parse_requirements(&body).unwrap();
            assert_eq!(doc.accepts.len(), 2);
        },
        GateStep::CallVerify { .. } => panic!("facilitator reached without payment"),
    }
    // this state is terminal: no path to the handler remains
    assert_eq!(gate.state, GateState::Challenged);
}

#[test]
fn challenge_lists_preferred_tag_first() {
    let mut gate = PaymentGate::new(discover_route());
    let body = match gate.on_request(None, NOW) {
        GateStep::Respond { body, .. } => body,
        _ => panic!(),
    };
    let doc = parse_requirements(&body).unwrap();
    assert!(matches!(doc.accepts[0].network, Network::Solana));
    assert!(matches!(doc.accepts[1].network, Network::BaseSepolia));
    assert_eq!(doc.accepts[0].amount.units, 1_000);
}

#[test]
fn malformed_header_is_a_400() {
    let mut gate = PaymentGate::new(discover_route());
    match gate.on_request(Some(&b"junk".to_vec()), NOW) {
        GateStep::Respond { status, .. } => assert_eq!(status, 400),
        _ => panic!(),
    }
    assert_eq!(gate.state, GateState::Rejected);
}

/// Runs the whole exchange with an instrumented facilitator and handler;
/// returns the counters (verify calls, settle calls, handler runs) and
/// the client's final result.
fn run_exchange(
    tamper_units: Option<u128>,
    verdicts: &[VerifyOutcome],
) -> (u32, u32, u32, Result<u16, AgentError>) {
    let mut verify_calls: u32 = 0;
    let mut settle_calls: u32 = 0;
    let mut handler_runs: u32 = 0;

    // client sends the original request; the server challenges
    let mut gate = PaymentGate::new(discover_route());
    let challenge = match gate.on_request(None, NOW) {
        GateStep::Respond { status, body } => {
            assert_eq!(status, 402);
            body
        },
        _ => panic!(),
    };

    // client consumes the 402 and selects a tag
    let mut agent = PaymentAgent::new(ClientPolicy { preferred_network: None, maxes: Vec::new() });
    let mut chosen = match agent.on_first_response(402, &challenge) {
        AgentStep::Pay { tag } => tag,
        AgentStep::Finished { .. } => panic!(),
        AgentStep::Fail { err } => return (0, 0, 0, Err(err)),
    };
    if let Some(u) = tamper_units {
        chosen.amount = Amount::from_units(u).unwrap();
    }

    // the key holder signs the exact tuple; the agent builds the header
    let header = agent
        .on_signature(
            &chosen,
            b"payerPubKey11111111111111111111111111111111".to_vec(),
            b"deadbeefcafe".to_vec(),
            b"6e6f6e63652d31".to_vec(),
            NOW - 10,
            NOW + 60,
        )
        .unwrap();

    // the retried request reaches a fresh gate
    let mut gate2 = PaymentGate::new(discover_route());
    let mut step = gate2.on_request(Some(&header), NOW);
    let retry_status: u16 = loop {
        match step {
            GateStep::Respond { status, body } => {
                if status == 402 {
                    // the corrected challenge still lists the same tags
                    let doc = parse_requirements(&body).unwrap();
                    assert_eq!(doc.accepts.len(), 2);
                    assert!(matches!(doc.accepts[0].network, Network::Solana));
                }
                break status;
            },
            GateStep::CallVerify { .. } => {
                let mut outcome_idx: usize = 0;
                let status = loop {
                    verify_calls += 1;
                    let outcome = verdicts[outcome_idx];
                    outcome_idx += 1;
                    match gate2.on_verify_outcome(&outcome) {
                        VerifyStep::RetryVerify => continue,
                        VerifyStep::Respond { status, .. } => break status,
                        VerifyStep::InvokeHandler => {
                            handler_runs += 1;
                            let SettleDirective { proof } = gate2.on_handler_done();
                            assert_eq!(proof.value.units, 1_000);
                            settle_calls += 1;
                            break 200;
                        },
                    }
                };
                break status;
            },
        }
    };

    let result = agent.on_retry_response(retry_status);
    (verify_calls, settle_calls, handler_runs, result)
}

#[test]
fn end_to_end_payment_succeeds_with_one_verify_and_one_settle() {
    let (verify_calls, settle_calls, handler_runs, result) =
        run_exchange(None, &[VerifyOutcome::Verdict { valid: true }]);
    assert_eq!(verify_calls, 1);
    assert_eq!(settle_calls, 1);
    assert_eq!(handler_runs, 1);
    assert_eq!(result, Ok(200));
}

#[test]
fn end_to_end_underpayment_is_rechallenged_and_not_retried() {
    // the client proposes one unit below the listed amount: the server
    // answers 402 again without calling the facilitator, and the agent
    // reports the rejection instead of looping
    let (verify_calls, settle_calls, handler_runs, result) = run_exchange(Some(999), &[]);
    assert_eq!(verify_calls, 0);
    assert_eq!(settle_calls, 0);
    assert_eq!(handler_runs, 0);
    assert_eq!(result, Err(AgentError::PaymentRejectedAfterRetry));
}

#[test]
fn negative_verdict_rejects_without_settlement() {
    let (verify_calls, settle_calls, handler_runs, result) =
        run_exchange(None, &[VerifyOutcome::Verdict { valid: false }]);
    assert_eq!(verify_calls, 1);
    assert_eq!(settle_calls, 0);
    assert_eq!(handler_runs, 0);
    assert_eq!(result, Err(AgentError::PaymentRejectedAfterRetry));
}

#[test]
fn transport_failures_are_retried_then_surface_as_502() {
    let (verify_calls, settle_calls, _handler_runs, result) = run_exchange(
        None,
        &[VerifyOutcome::Unreachable, VerifyOutcome::Unreachable, VerifyOutcome::Unreachable],
    );
    assert_eq!(verify_calls, 3);
    assert_eq!(settle_calls, 0);
    assert_eq!(result, Ok(502));
}

#[test]
fn transport_failure_then_verdict_succeeds() {
    let (verify_calls, settle_calls, handler_runs, result) = run_exchange(
        None,
        &[VerifyOutcome::Unreachable, VerifyOutcome::Verdict { valid: true }],
    );
    assert_eq!(verify_calls, 2);
    assert_eq!(settle_calls, 1);
    assert_eq!(handler_runs, 1);
    assert_eq!(result, Ok(200));
}

#[test]
fn client_ceiling_blocks_expensive_tags() {
    let mut gate = PaymentGate::new(discover_route());
    let challenge = match gate.on_request(None, NOW) {
        GateStep::Respond { body, .. } => body,
        _ => panic!(),
    };
    // a payer ceiling below the listed amount on both networks
    let maxes = vec![
        MaxEntry {
            network: Network::Solana,
            address: resolve(&Network::Solana, &b"USDC".to_vec()).unwrap().address,
            max: Amount::from_units(500).unwrap(),
        },
        MaxEntry {
            network: Network::BaseSepolia,
            address: resolve(&Network::BaseSepolia, &b"USDC".to_vec()).unwrap().address,
            max: Amount::from_units(500).unwrap(),
        },
    ];
    let mut agent = PaymentAgent::new(ClientPolicy { preferred_network: None, maxes });
    match agent.on_first_response(402, &challenge) {
        AgentStep::Fail { err } => assert_eq!(err, AgentError::NoAcceptablePriceTag),
        _ => panic!("an unaffordable tag was selected"),
    }
}

#[test]
fn preferred_network_steers_selection() {
    let mut gate = PaymentGate::new(discover_route());
    let challenge = match gate.on_request(None, NOW) {
        GateStep::Respond { body, .. } => body,
        _ => panic!(),
    };
    let mut agent = PaymentAgent::new(ClientPolicy {
        preferred_network: Some(Network::BaseSepolia),
        maxes: Vec::new(),
    });
    match agent.on_first_response(402, &challenge) {
        AgentStep::Pay { tag } => assert!(matches!(tag.network, Network::BaseSepolia)),
        _ => panic!(),
    }
}

#[test]
fn expired_proof_is_rejected_before_any_remote_call() {
    let mut gate = PaymentGate::new(discover_route());
    let challenge = match gate.on_request(None, NOW) {
        GateStep::Respond { body, .. } => body,
        _ => panic!(),
    };
    let mut agent = PaymentAgent::new(ClientPolicy { preferred_network: None, maxes: Vec::new() });
    let tag = match agent.on_first_response(402, &challenge) {
        AgentStep::Pay { tag } => tag,
        _ => panic!(),
    };
    // a window that closed a minute before the server's clock
    let header = agent
        .on_signature(
            &tag,
            b"payerPubKey11111111111111111111111111111111".to_vec(),
            b"deadbeefcafe".to_vec(),
            b"6e6f6e63652d31".to_vec(),
            NOW - 120,
            NOW - 60,
        )
        .unwrap();
    let mut gate2 = PaymentGate::new(discover_route());
    match gate2.on_request(Some(&header), NOW) {
        GateStep::Respond { status, .. } => assert_eq!(status, 400),
        GateStep::CallVerify { .. } => panic!("an expired proof reached the facilitator"),
    }
}

#[test]
fn settlement_is_scheduled_exactly_once() {
    let mut gate = PaymentGate::new(discover_route());
    let challenge = match gate.on_request(None, NOW) {
        GateStep::Respond { body, .. } => body,
        _ => panic!(),
    };
    let mut agent = PaymentAgent::new(ClientPolicy { preferred_network: None, maxes: Vec::new() });
    let tag = match agent.on_first_response(402, &challenge) {
        AgentStep::Pay { tag } => tag,
        _ => panic!(),
    };
    let header = agent
        .on_signature(
            &tag,
            b"payerPubKey11111111111111111111111111111111".to_vec(),
            b"deadbeefcafe".to_vec(),
            b"6e6f6e63652d31".to_vec(),
            NOW - 10,
            NOW + 60,
        )
        .unwrap();
    let mut gate2 = PaymentGate::new(discover_route());
    match gate2.on_request(Some(&header), NOW) {
        GateStep::CallVerify { .. } => {},
        _ => panic!(),
    }
    assert_eq!(gate2.state, GateState::Verifying);
    assert!(!gate2.settle_issued);
    match gate2.on_verify_outcome(&VerifyOutcome::Verdict { valid: true }) {
        VerifyStep::InvokeHandler => {},
        _ => panic!(),
    }
    assert_eq!(gate2.state, GateState::Verified);
    assert!(!gate2.settle_issued);
    let _directive = gate2.on_handler_done();
    // the machine is in its terminal success state: settlement was issued
    // on this one transition and no step can issue it again
    assert_eq!(gate2.state, GateState::Forwarded);
    assert!(gate2.settle_issued);
}
