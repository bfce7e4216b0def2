use crypto_gotham_relay::transport::mailbox::{
    deposit_only, on_mixnet_request, to_redeposit, worth_replying, FetchPolicy, FetchProof,
    MailboxRefusal, MailboxRequest, MailboxSession, MailboxStep, ServiceRefusal, ServiceStep,
    MAILBOX_FETCH_BUDGET, MAX_MAILBOX_REQUESTS_PER_CONN, SURB_FETCH_BUDGET,
};
use crypto_gotham_relay::{
    allow_unauthenticated_mailbox_fetch, set_allow_unauthenticated_mailbox_fetch,
};
use x25519_dalek::{x25519, PublicKey, StaticSecret};

type Request = MailboxRequest<u32, [u8; 32]>;

const HOST_SK: [u8; 32] = [11; 32];
const OWNER_SK: [u8; 32] = [12; 32];

fn public(sk: [u8; 32]) -> [u8; 32] {
    PublicKey::from(&StaticSecret::from(sk)).to_bytes()
}

/// Stands for the tag: the shared secret with the binding and the mailbox mixed
/// in.
fn tag(shared: [u8; 32], binding: &[u8], id: u32) -> [u8; 32] {
    let mut t = shared;
    for (i, b) in binding.iter().enumerate() {
        t[i % 32] = t[i % 32].wrapping_mul(31).wrapping_add(*b);
    }
    t[0] ^= id as u8;
    t
}

fn verify(given: [u8; 32], shared: [u8; 32], binding: &Vec<u8>, id: u32) -> bool {
    given == tag(shared, binding, id)
}

fn proof_for(binding: &[u8], id: u32) -> Option<FetchProof<[u8; 32]>> {
    let shared = x25519(OWNER_SK, public(HOST_SK));
    Some(FetchProof {
        pk: public(OWNER_SK),
        tag: tag(shared, binding, id),
    })
}

fn session(allow: bool) -> MailboxSession {
    MailboxSession::new(HOST_SK, b"hash".to_vec(), allow)
}

#[test]
fn the_policy_is_closed_until_it_is_opened() {
    let mut policy = FetchPolicy::new();
    assert!(!allow_unauthenticated_mailbox_fetch(&policy));
    set_allow_unauthenticated_mailbox_fetch(&mut policy, true);
    assert!(allow_unauthenticated_mailbox_fetch(&policy));
    set_allow_unauthenticated_mailbox_fetch(&mut policy, false);
    assert!(!allow_unauthenticated_mailbox_fetch(&policy));
}

#[test]
fn a_fetch_needs_a_proof_for_this_connection_and_mailbox() {
    let fetch = |s: &mut MailboxSession, auth| {
        s.on_request(Some(Request::Fetch { id: 7, auth }), verify)
    };
    assert!(matches!(
        fetch(&mut session(false), proof_for(b"hash", 7)),
        MailboxStep::Drain {
            id: 7,
            budget: MAILBOX_FETCH_BUDGET,
            proven: true
        }
    ));
    for bad in [proof_for(b"other", 7), proof_for(b"hash", 8)] {
        assert!(matches!(
            fetch(&mut session(true), bad),
            MailboxStep::Refuse(MailboxRefusal::Unauthorized)
        ));
    }
    assert!(matches!(
        fetch(&mut session(false), None),
        MailboxStep::Refuse(MailboxRefusal::Unauthorized)
    ));
    assert!(matches!(
        fetch(&mut session(true), None),
        MailboxStep::Drain {
            id: 7,
            proven: false,
            ..
        }
    ));
}

#[test]
fn other_requests_on_a_direct_connection() {
    let mut s = session(false);
    assert!(matches!(
        s.on_request(
            Some(Request::Deposit { id: 3, sealed: vec![1, 2], ttl_secs: 60 }),
            verify
        ),
        MailboxStep::Deposit { id: 3, ttl_secs: 60, sealed } if sealed == vec![1, 2]
    ));
    assert!(matches!(
        s.on_request(
            Some(Request::FetchWithSurb {
                id: 3,
                surb: vec![],
                auth: proof_for(b"", 3)
            }),
            verify
        ),
        MailboxStep::Refuse(MailboxRefusal::Malformed)
    ));
    assert!(matches!(
        s.on_request(None::<Request>, verify),
        MailboxStep::Refuse(MailboxRefusal::Malformed)
    ));
}

#[test]
fn a_connection_makes_so_many_requests() {
    let mut s = session(false);
    for _ in 0..MAX_MAILBOX_REQUESTS_PER_CONN {
        assert!(matches!(
            s.on_request(None::<Request>, verify),
            MailboxStep::Refuse(_)
        ));
    }
    for _ in 0..2 {
        assert!(matches!(
            s.on_request(None::<Request>, verify),
            MailboxStep::Close(MailboxRefusal::RateLimited)
        ));
    }
}

fn mixnet(request: Option<Request>) -> ServiceStep<u32, String> {
    on_mixnet_request(&HOST_SK, request, verify, |surb: &Vec<u8>| {
        String::from_utf8(surb.clone()).ok()
    })
}

#[test]
fn a_fetch_from_the_mixnet_is_bound_to_its_reply_block() {
    let fetch = |surb: &[u8], auth| {
        mixnet(Some(Request::FetchWithSurb {
            id: 7,
            surb: surb.to_vec(),
            auth,
        }))
    };
    assert_eq!(SURB_FETCH_BUDGET, 1408);
    match fetch(b"block", proof_for(b"block", 7)) {
        ServiceStep::Drain { id, surb, budget } => {
            assert_eq!((id, surb.as_str(), budget), (7, "block", 1408));
        }
        _ => panic!("a proven fetch drains"),
    }
    assert!(matches!(
        fetch(b"elsewhere", proof_for(b"block", 7)),
        ServiceStep::Refuse(ServiceRefusal::BadProof)
    ));
    assert!(matches!(
        fetch(b"block", None),
        ServiceStep::Refuse(ServiceRefusal::MissingProof)
    ));
    assert!(matches!(
        fetch(&[0xff], proof_for(&[0xff], 7)),
        ServiceStep::Refuse(ServiceRefusal::MalformedSurb)
    ));
    assert!(matches!(
        mixnet(Some(Request::Fetch {
            id: 7,
            auth: proof_for(b"", 7)
        })),
        ServiceStep::Ignore
    ));
    assert!(matches!(mixnet(None), ServiceStep::Ignore));
    assert!(matches!(
        mixnet(Some(Request::Deposit {
            id: 1,
            sealed: vec![],
            ttl_secs: 0
        })),
        ServiceStep::Deposit { id: 1, .. }
    ));
}

#[test]
fn a_deposit_host_takes_deposits_alone() {
    assert_eq!(
        deposit_only(Some(Request::Deposit {
            id: 4,
            sealed: vec![9],
            ttl_secs: 5
        })),
        Some((4, vec![9], 5))
    );
    assert_eq!(deposit_only(Some(Request::Fetch { id: 4, auth: None })), None);
    assert_eq!(deposit_only(None::<Request>), None);
}

#[test]
fn what_was_drained_is_shipped_or_put_back() {
    let batch = vec![vec![1], vec![2, 3]];
    assert!(worth_replying(&batch));
    assert!(!worth_replying(&vec![]));
    assert_eq!(to_redeposit(batch.clone(), false), batch);
    assert!(to_redeposit(batch, true).is_empty());
}
