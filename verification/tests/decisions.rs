use bevy_ecs::entity::Entity;
use bevy_ecs::relationship::RelationshipHookMode;
use lightyear::fork::{late_attach_init_enabled, ForkExtensions};
use lightyear::link::{
    forget_link, inherits_server_conditioner, link_discard_removes, link_insert_action,
    record_link, server_links_for, server_needs_unlinked_marker, unlinked_despawns,
    LinkInsertAction,
};
use lightyear::packet::Tick;
use lightyear::prediction::{history_on_predicted_added, history_on_prediction_added, HistoryBootstrap};

fn entity(bits: u32) -> Entity {
    Entity::from_raw_u32(bits).unwrap()
}

#[test]
fn preset_enables_and_default_disables_late_attach() {
    assert!(ForkExtensions::all().late_attach_init);
    assert!(!ForkExtensions::default().late_attach_init);
    assert!(late_attach_init_enabled(Some(&ForkExtensions::all())));
    assert!(!late_attach_init_enabled(Some(&ForkExtensions::default())));
    assert!(!late_attach_init_enabled(None));
}

#[test]
fn new_server_is_marked_unlinked_only_without_a_link_state() {
    assert!(server_needs_unlinked_marker(false, false, false));
    assert!(!server_needs_unlinked_marker(true, false, false));
    assert!(!server_needs_unlinked_marker(false, true, false));
    assert!(!server_needs_unlinked_marker(false, false, true));
}

#[test]
fn link_insert_hook_actions() {
    let link = entity(3);
    let server = entity(7);
    assert_eq!(
        link_insert_action(RelationshipHookMode::Run, link, server, true, true),
        LinkInsertAction::AddToServer
    );
    assert_eq!(
        link_insert_action(RelationshipHookMode::Run, link, server, true, false),
        LinkInsertAction::InsertServer
    );
    assert_eq!(
        link_insert_action(RelationshipHookMode::Run, link, server, false, false),
        LinkInsertAction::RemoveMissingTarget
    );
    assert_eq!(
        link_insert_action(RelationshipHookMode::Run, link, link, true, true),
        LinkInsertAction::RemoveSelfReference
    );
    assert_eq!(
        link_insert_action(RelationshipHookMode::Skip, link, link, true, true),
        LinkInsertAction::Skip
    );
    assert_eq!(
        link_insert_action(RelationshipHookMode::RunIfNotLinked, link, server, true, true),
        LinkInsertAction::Skip
    );
}

#[test]
fn link_discard_hook_removes_from_server_collection() {
    assert!(link_discard_removes(RelationshipHookMode::Run, true, true));
    assert!(!link_discard_removes(RelationshipHookMode::Run, true, false));
    assert!(!link_discard_removes(RelationshipHookMode::Skip, false, true));
    // The server spawns its links along with it, so this mode skips the hook.
    assert!(!link_discard_removes(RelationshipHookMode::RunIfNotLinked, true, true));
    assert!(link_discard_removes(RelationshipHookMode::RunIfNotLinked, false, true));
}

#[test]
fn link_inherits_conditioner_only_when_it_has_none() {
    assert!(inherits_server_conditioner(true, true, true, false));
    // An existing link conditioner is not overwritten.
    assert!(!inherits_server_conditioner(true, true, true, true));
    assert!(!inherits_server_conditioner(true, true, false, false));
    assert!(!inherits_server_conditioner(false, true, true, false));
    assert!(!inherits_server_conditioner(true, false, true, false));
}

fn is_seeded(b: &HistoryBootstrap<u32>, tick: Tick, value: u32) -> bool {
    matches!(b, HistoryBootstrap::Seeded(t, v) if *t == tick && *v == value)
}

#[test]
fn history_seeded_when_component_added_on_predicted_entity() {
    let tick = Tick(9);
    // The predicted marker arrives first, alone: no history yet.
    let on_marker = history_on_prediction_added::<u32>(false, false, None, true, false, false, tick);
    assert!(matches!(on_marker, HistoryBootstrap::Skip));
    let on_predicted = history_on_predicted_added::<u32>(true, false, false, None, tick);
    assert!(matches!(on_predicted, HistoryBootstrap::Skip));
    // Then the component: the history is seeded with its value.
    let on_component = history_on_prediction_added(false, false, Some(35u32), true, false, false, tick);
    assert!(is_seeded(&on_component, tick, 35));
}

#[test]
fn history_seeded_when_predicted_added_after_component_exists() {
    let tick = Tick(17);
    // The component arrives first on an entity that is not predicted: no history.
    let on_component = history_on_prediction_added(false, false, Some(625u32), false, false, false, tick);
    assert!(matches!(on_component, HistoryBootstrap::Skip));
    // Then the predicted marker: both observers seed the history with the value.
    let on_predicted = history_on_predicted_added(true, false, false, Some(625u32), tick);
    assert!(is_seeded(&on_predicted, tick, 625));
    let on_marker = history_on_prediction_added(false, false, Some(625u32), true, false, false, tick);
    assert!(is_seeded(&on_marker, tick, 625));
}

#[test]
fn history_not_added_twice_and_empty_from_confirmed_alone() {
    let tick = Tick(2);
    assert!(matches!(
        history_on_prediction_added(true, true, Some(1u32), true, true, true, tick),
        HistoryBootstrap::Skip
    ));
    assert!(matches!(
        history_on_predicted_added(true, true, true, Some(1u32), tick),
        HistoryBootstrap::Skip
    ));
    assert!(matches!(
        history_on_prediction_added::<u32>(false, true, None, false, true, false, tick),
        HistoryBootstrap::Empty
    ));
    assert!(matches!(
        history_on_prediction_added::<u32>(false, true, None, false, false, true, tick),
        HistoryBootstrap::Empty
    ));
}

#[test]
fn server_link_collection_records_and_forgets_links() {
    let (a, b) = (entity(1), entity(2));
    let mut links = server_links_for(a);
    assert_eq!(links, vec![a]);
    record_link(&mut links, b);
    record_link(&mut links, a);
    assert_eq!(links, vec![a, b, a]);
    // The last occurrence goes; the others keep their order.
    assert!(forget_link(&mut links, a));
    assert_eq!(links, vec![a, b]);
    assert!(!forget_link(&mut links, entity(9)));
    assert_eq!(links, vec![a, b]);
    record_link(&mut links, entity(5));
    assert!(forget_link(&mut links, entity(5)));
    assert_eq!(links, vec![a, b]);
}

#[test]
fn unlinked_server_despawns_every_link_in_order() {
    let links = vec![entity(4), entity(2), entity(4)];
    assert_eq!(unlinked_despawns(true, &links), links);
    assert!(unlinked_despawns(false, &links).is_empty());
    assert!(unlinked_despawns(true, &Vec::new()).is_empty());
}
