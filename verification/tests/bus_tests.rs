use hatch::bus::{HatchMessage, MessageBus};
use hatch::types::{AgentOutput, HatchError};

#[test]
fn publish_delivers_to_subscriber() {
    let bus = MessageBus::new(16);
    let mut rx = bus.subscribe();
    let agent_id = uuid::Uuid::new_v4().as_u128();
    let out = AgentOutput {
        agent_id,
        task_id: uuid::Uuid::new_v4().as_u128(),
        content: "hello".into(),
        artifacts: vec![],
    };
    bus.publish(HatchMessage::AgentDone(out.clone())).expect("publish");
    let rt = tokio::runtime::Builder::new_current_thread().build().expect("runtime");
    let got = rt.block_on(rx.recv()).expect("recv");
    match got {
        HatchMessage::AgentDone(o) => {
            assert_eq!(o.content, "hello");
            assert_eq!(o.agent_id, agent_id);
        }
        _ => panic!("unexpected message"),
    }
}

#[test]
fn publish_without_subscriber_is_a_bus_error() {
    let bus = MessageBus::new(4);
    match bus.publish(HatchMessage::AgentFailed { agent_id: 3, error: "x".into() }) {
        Err(HatchError::Bus(m)) => assert_eq!(m, "channel closed"),
        _ => panic!("expected a bus error"),
    }
}

#[test]
fn zero_capacity_becomes_one() {
    assert_eq!(MessageBus::new(0).capacity(), 1);
    assert_eq!(MessageBus::new(1024).capacity(), 1024);
}
