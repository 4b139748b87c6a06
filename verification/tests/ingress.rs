use bob_pool::ingress::MAX_ARGUMENT_BYTES;
use bob_pool::{inspect_message, Admission, Method};

#[test]
fn members_are_taken_with_short_arguments() {
    assert_eq!(MAX_ARGUMENT_BYTES, 1_000);
    for method in [Method::JoinPool, Method::PayMemberRewards, Method::SetMemberBlockCycles] {
        for by_controller in [false, true] {
            assert_eq!(inspect_message(method, 0, by_controller), Admission::Accepted);
            assert_eq!(inspect_message(method, 1_000, by_controller), Admission::Accepted);
            assert_eq!(
                inspect_message(method, 1_001, by_controller),
                Admission::ArgumentTooLong { length: 1_001 }
            );
        }
    }
}

#[test]
fn the_lifecycle_is_for_controllers() {
    for method in [Method::SpawnMiner, Method::Start, Method::Stop] {
        assert_eq!(inspect_message(method, 0, true), Admission::Accepted);
        assert_eq!(inspect_message(method, usize::MAX, true), Admission::Accepted);
        assert_eq!(inspect_message(method, 0, false), Admission::ControllersOnly);
    }
}

#[test]
fn nothing_else_is_taken_from_outside() {
    for by_controller in [false, true] {
        assert_eq!(inspect_message(Method::Other, 0, by_controller), Admission::NotViaIngress);
    }
}
