//! A combatant: name, hit points, rolled initiative, and the dexterity
//! modifier that is shown beside the roll. Entities are ordered by the key
//! `(initiative, dexterity modifier, name, hit points)`, compared
//! lexicographically in that field order; the roster keeps its storage
//! sorted ascending by this key.

use vstd::prelude::*;
use crate::text::{chars_le, lemma_chars_le_total, lemma_chars_le_trans, str_le};

verus! {

#[derive(Hash, PartialEq, Eq, Debug, Clone)]
pub struct Entity {
    init: u32,
    dex_mod: i32,
    name: String,
    hp: u32,
}

/// The mathematical value of an `Entity`.
#[verifier::ext_equal]
pub ghost struct EntityModel {
    pub init: u32,
    pub dex_mod: i32,
    pub name: Seq<char>,
    pub hp: u32,
}

impl View for Entity {
    type V = EntityModel;

    closed spec fn view(&self) -> EntityModel {
        EntityModel { init: self.init, dex_mod: self.dex_mod, name: self.name@, hp: self.hp }
    }
}

/// The roster's ordering key: initiative first, then dexterity modifier,
/// then name (lexicographic by code point), then hit points.
pub open spec fn key_le(a: EntityModel, b: EntityModel) -> bool {
    if a.init != b.init {
        a.init < b.init
    } else if a.dex_mod != b.dex_mod {
        a.dex_mod < b.dex_mod
    } else if !chars_le(b.name, a.name) {
        true
    } else if !chars_le(a.name, b.name) {
        false
    } else {
        a.hp <= b.hp
    }
}

/// The ordering key is total: any two entities compare one way or the other.
pub proof fn lemma_key_le_total(a: EntityModel, b: EntityModel)
    ensures
        key_le(a, b) || key_le(b, a),
{
    lemma_chars_le_total(a.name, b.name);
}

pub proof fn lemma_key_le_trans(a: EntityModel, b: EntityModel, c: EntityModel)
    requires
        key_le(a, b),
        key_le(b, c),
    ensures
        key_le(a, c),
{
    lemma_chars_le_total(a.name, b.name);
    lemma_chars_le_total(b.name, c.name);
    lemma_chars_le_total(a.name, c.name);
    if a.init == c.init && a.dex_mod == c.dex_mod {
        if chars_le(a.name, b.name) && chars_le(b.name, c.name) {
            lemma_chars_le_trans(a.name, b.name, c.name);
        }
        if chars_le(c.name, a.name) {
            if chars_le(a.name, b.name) {
                lemma_chars_le_trans(c.name, a.name, b.name);
            }
            if chars_le(b.name, c.name) {
                lemma_chars_le_trans(b.name, c.name, a.name);
            }
        }
    }
}

/// Decide the ordering key on two entities.
pub fn entity_le(a: &Entity, b: &Entity) -> (r: bool)
    ensures
        r == key_le(a@, b@),
{
    if a.init != b.init {
        a.init < b.init
    } else if a.dex_mod != b.dex_mod {
        a.dex_mod < b.dex_mod
    } else if !str_le(b.name.as_str(), a.name.as_str()) {
        true
    } else if !str_le(a.name.as_str(), b.name.as_str()) {
        false
    } else {
        a.hp <= b.hp
    }
}

impl Entity {
    pub fn new(name: String, hp: u32, init: u32, dex_mod: i32) -> (e: Self)
        ensures
            e@ == (EntityModel { init, dex_mod, name: name@, hp }),
    {
        Self { init, dex_mod, name, hp }
    }

    pub fn get_name(&self) -> (r: String)
        ensures
            r@ == self@.name,
    {
        self.name.clone()
    }

    pub fn get_hp(&self) -> (r: u32)
        ensures
            r == self@.hp,
    {
        self.hp
    }

    pub fn get_init(&self) -> (r: u32)
        ensures
            r == self@.init,
    {
        self.init
    }

    pub fn get_dex_mod(&self) -> (r: i32)
        ensures
            r == self@.dex_mod,
    {
        self.dex_mod
    }

    /// A copy with the same mathematical value.
    pub fn clone_entity(&self) -> (r: Self)
        ensures
            r@ == self@,
    {
        Self { init: self.init, dex_mod: self.dex_mod, name: self.name.clone(), hp: self.hp }
    }

    pub fn set_hp(&mut self, hp: u32)
        ensures
            final(self)@ == (EntityModel { hp, ..old(self)@ }),
    {
        self.hp = hp;
    }
}

} // verus!
