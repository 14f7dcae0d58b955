use seam_disruptor::message::StitchMessage;
use std::any::TypeId;

#[test]
fn type_id_is_that_of_the_type() {
    assert_eq!(StitchMessage::type_id::<String>(), TypeId::of::<String>());
    assert_eq!(StitchMessage::type_id::<u64>(), TypeId::of::<u64>());
    assert_ne!(StitchMessage::type_id::<u64>(), StitchMessage::type_id::<i64>());
}

#[test]
fn hash_of_a_type_is_the_hash_of_its_identifier() {
    assert_eq!(
        StitchMessage::hash_type::<String>(),
        StitchMessage::hash_type_id(TypeId::of::<String>())
    );
    assert_eq!(
        StitchMessage::hash_type::<Vec<u8>>(),
        StitchMessage::hash_type_id(StitchMessage::type_id::<Vec<u8>>())
    );
    assert_eq!(StitchMessage::hash_type::<u64>(), StitchMessage::hash_type::<u64>());
}

#[test]
fn hashes_of_different_types_differ() {
    assert_ne!(StitchMessage::hash_type::<String>(), StitchMessage::hash_type::<u64>());
    assert_ne!(StitchMessage::hash_type::<u32>(), StitchMessage::hash_type::<u64>());
    assert_ne!(
        StitchMessage::hash_type_id(TypeId::of::<bool>()),
        StitchMessage::hash_type_id(TypeId::of::<char>())
    );
}

#[test]
fn message_holds_its_tag_and_its_bytes() {
    let message = StitchMessage {
        type_id: StitchMessage::hash_type::<String>(),
        bytes: vec![104, 105],
    };
    assert_eq!(message.type_id, StitchMessage::hash_type::<String>());
    assert_eq!(message.bytes, vec![104u8, 105]);
}
