//! Decisions of the server side of links: a server endpoint and the client links that
//! point at it.
//!
//! The entity-component world is read and written around these functions; each takes
//! what a hook or observer reads from the world and says what it does to it.

use vstd::prelude::*;
use bevy_ecs::entity::Entity;
use bevy_ecs::relationship::{RelationshipHookMode, RelationshipSourceCollection};
use crate::platform::same_entity;

verus! {

/// `bevy_ecs::relationship::RelationshipHookMode`, whose three variants the hooks match on.
#[verifier::external_type_specification]
pub struct ExRelationshipHookMode(RelationshipHookMode);

/// A newly added server endpoint gets the unlinked marker unless it already carries
/// one of the unlinked, linked or linking markers.
pub fn server_needs_unlinked_marker(has_unlinked: bool, has_linked: bool, has_linking: bool) -> (r:
    bool)
    ensures
        r == !(has_unlinked || has_linked || has_linking),
{
    !has_unlinked && !has_linked && !has_linking
}

/// What the insert hook of a link (the relationship from a client link to its server)
/// does to the world.
#[derive(Clone, Copy, Debug, PartialEq, Eq, Structural)]
pub enum LinkInsertAction {
    /// The hook does not run in this mode.
    Skip,
    /// The link points at its own entity: the invalid relationship is removed.
    RemoveSelfReference,
    /// The link is added to the collection of the target's server.
    AddToServer,
    /// The target has no server yet: one holding just this link is inserted on it.
    InsertServer,
    /// The target entity does not exist: the invalid relationship is removed.
    RemoveMissingTarget,
}

/// The insert hook's action for the link on `entity` pointing at `target`, where
/// `target_exists` and `target_has_server` say what the world holds.
pub open spec fn link_insert_spec(
    mode: RelationshipHookMode,
    entity: Entity,
    target: Entity,
    target_exists: bool,
    target_has_server: bool,
) -> LinkInsertAction {
    if !(mode is Run) {
        LinkInsertAction::Skip
    } else if target == entity {
        LinkInsertAction::RemoveSelfReference
    } else if !target_exists {
        LinkInsertAction::RemoveMissingTarget
    } else if target_has_server {
        LinkInsertAction::AddToServer
    } else {
        LinkInsertAction::InsertServer
    }
}

/// What the insert hook of a link does, over every input: nothing in a mode other than
/// `Run`; in `Run`, a link pointing at its own entity is removed, whatever the world
/// holds; a link to a missing entity is removed; a link to an existing entity is added
/// to that entity's server, or a server holding it is inserted when there is none.
pub proof fn law_link_insert(
    mode: RelationshipHookMode,
    entity: Entity,
    target: Entity,
    target_exists: bool,
    target_has_server: bool,
)
    ensures
        !(mode is Run) ==> link_insert_spec(mode, entity, target, target_exists, target_has_server)
            == LinkInsertAction::Skip,
        mode is Run ==> link_insert_spec(mode, entity, entity, target_exists, target_has_server)
            == LinkInsertAction::RemoveSelfReference,
        mode is Run && target != entity && !target_exists ==> link_insert_spec(
            mode,
            entity,
            target,
            target_exists,
            target_has_server,
        ) == LinkInsertAction::RemoveMissingTarget,
        mode is Run && target != entity && target_exists && target_has_server
            ==> link_insert_spec(mode, entity, target, target_exists, target_has_server)
            == LinkInsertAction::AddToServer,
        mode is Run && target != entity && target_exists && !target_has_server
            ==> link_insert_spec(mode, entity, target, target_exists, target_has_server)
            == LinkInsertAction::InsertServer,
{
}

/// Decides what the insert hook of a link does: it runs only in the `Run` mode, removes
/// a link that points at its own entity or at a missing entity, and otherwise records
/// the link in the target's server (creating the server if needed).
pub fn link_insert_action(
    mode: RelationshipHookMode,
    entity: Entity,
    target: Entity,
    target_exists: bool,
    target_has_server: bool,
) -> (r: LinkInsertAction)
    ensures
        r == link_insert_spec(mode, entity, target, target_exists, target_has_server),
{
    match mode {
        RelationshipHookMode::Run => {},
        RelationshipHookMode::Skip => return LinkInsertAction::Skip,
        RelationshipHookMode::RunIfNotLinked => return LinkInsertAction::Skip,
    }
    if same_entity(&target, &entity) {
        return LinkInsertAction::RemoveSelfReference;
    }
    if target_exists {
        if target_has_server {
            LinkInsertAction::AddToServer
        } else {
            LinkInsertAction::InsertServer
        }
    } else {
        LinkInsertAction::RemoveMissingTarget
    }
}

/// Decides whether the discard hook of a link removes it from its server's collection:
/// the hook runs in the `Run` mode, and in the `RunIfNotLinked` mode only when the
/// server does not spawn its links along with it (`linked_spawn`); it then removes the
/// link when the target exists and is a server.
pub fn link_discard_removes(
    mode: RelationshipHookMode,
    linked_spawn: bool,
    target_has_server: bool,
) -> (r: bool)
    ensures
        r == ((mode is Run || (mode is RunIfNotLinked && !linked_spawn)) && target_has_server),
{
    match mode {
        RelationshipHookMode::Run => {},
        RelationshipHookMode::Skip => return false,
        RelationshipHookMode::RunIfNotLinked => {
            if linked_spawn {
                return false;
            }
        },
    }
    target_has_server
}

/// Decides whether a newly created client link inherits its server's receive
/// conditioner: the link and its server are found, the server has a conditioner, and the
/// link has none of its own (an existing conditioner is never overwritten).
pub fn inherits_server_conditioner(
    link_found: bool,
    server_found: bool,
    server_has_conditioner: bool,
    link_has_conditioner: bool,
) -> (r: bool)
    ensures
        r == (link_found && server_found && server_has_conditioner && !link_has_conditioner),
{
    if !link_found || !server_found || !server_has_conditioner {
        return false;
    }
    !link_has_conditioner
}

/// The links an unlinked server despawns, in the order of its collection: all of them
/// when the server is found, none otherwise. An unlink event for the server is
/// triggered before each despawn.
pub fn unlinked_despawns(server_found: bool, links: &Vec<Entity>) -> (r: Vec<Entity>)
    ensures
        server_found ==> r@ == links@,
        !server_found ==> r@.len() == 0,
{
    let mut r: Vec<Entity> = Vec::new();
    if !server_found {
        return r;
    }
    let mut i: usize = 0;
    while i < links.len()
        invariant
            i <= links.len(),
            r@ == links@.take(i as int),
        decreases links.len() - i,
    {
        r.push(links[i]);
        i = i + 1;
        assert(r@ =~= links@.take(i as int));
    }
    assert(links@.take(links.len() as int) =~= links@);
    r
}

/// The position of the last occurrence of `e` in `s`, or -1 when there is none.
pub open spec fn last_index_of(s: Seq<Entity>, e: Entity) -> int
    decreases s.len(),
{
    if s.len() == 0 {
        -1
    } else if s.last() == e {
        s.len() - 1
    } else {
        last_index_of(s.drop_last(), e)
    }
}

/// The collection of links of a server created for its first link: just that link.
pub fn server_links_for(link: Entity) -> (links: Vec<Entity>)
    ensures
        links@ == seq![link],
{
    let mut links: Vec<Entity> = Vec::with_capacity(1);
    source_collection_add(&mut links, link);
    assert(links@ =~= seq![link]);
    links
}

/// Records `link` in its server's collection of links: it is appended, even when
/// already there.
pub fn record_link(links: &mut Vec<Entity>, link: Entity)
    ensures
        final(links)@ == old(links)@.push(link),
{
    source_collection_add(links, link);
}

/// Forgets `link` in its server's collection of links: its last occurrence is removed,
/// the others keep their order; says whether it was there.
pub fn forget_link(links: &mut Vec<Entity>, link: Entity) -> (removed: bool)
    ensures
        removed == old(links)@.contains(link),
        removed ==> final(links)@ == old(links)@.remove(last_index_of(old(links)@, link)),
        !removed ==> final(links)@ == old(links)@,
{
    source_collection_remove(links, link)
}

/// A link recorded and then forgotten leaves its server's collection as it was.
pub proof fn law_record_then_forget(links: Seq<Entity>, link: Entity)
    ensures
        links.push(link).contains(link),
        links.push(link).remove(last_index_of(links.push(link), link)) == links,
{
    let s = links.push(link);
    assert(s[links.len() as int] == link);
    assert(s.drop_last() =~= links);
    assert(s.remove(links.len() as int) =~= links);
}

/// `<Vec<Entity> as RelationshipSourceCollection>::add`: pushes the entity and returns
/// true.
#[verifier::external_body]
fn source_collection_add(links: &mut Vec<Entity>, entity: Entity) -> (r: bool)
    ensures
        final(links)@ == old(links)@.push(entity),
        r,
{
    <Vec<Entity> as RelationshipSourceCollection>::add(links, entity)
}

/// `<Vec<Entity> as RelationshipSourceCollection>::remove`: finds the entity's last
/// occurrence (`rposition`, comparing with `Entity`'s equality) and removes it with
/// `Vec::remove`, returning true; returns false and changes nothing when absent.
#[verifier::external_body]
fn source_collection_remove(links: &mut Vec<Entity>, entity: Entity) -> (r: bool)
    ensures
        r == old(links)@.contains(entity),
        r ==> final(links)@ == old(links)@.remove(last_index_of(old(links)@, entity)),
        !r ==> final(links)@ == old(links)@,
{
    <Vec<Entity> as RelationshipSourceCollection>::remove(links, entity)
}

} // verus!
