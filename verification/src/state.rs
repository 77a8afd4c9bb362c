//! The tracker's whole state and the commands the presentation layer issues
//! against it: session reset, entity drafting and commit, roster removal,
//! the encounter turn tracker, and the dice roller. Every command is a
//! synchronous state transition with an exact contract; rejected commands
//! leave the state unchanged.

use vstd::prelude::*;
use crate::dice::{
    DiceType, draw_in_range, get_dice_val, spec_dice_val, sum_rolls,
};
use crate::entity::{Entity, EntityModel};
use crate::roster::{
    display_of, insert_pos, insert_sorted, lemma_remove_display, lemma_remove_keeps_sorted,
    roster_view, sorted_by_key,
};
use crate::text::{
    dec_digits, parse_i32_default, parse_i32_or, parse_u32_default, parse_u32_or, u32_to_string,
};

verus! {

/// Which central panel is shown. It does not affect the data model.
#[derive(PartialEq, Eq, Structural, Clone, Copy, Debug)]
pub enum AppMode {
    MapPanel,
    DiceRoller,
    Timers,
}

impl Default for AppMode {
    fn default() -> (r: Self)
        ensures
            r == AppMode::MapPanel,
    {
        AppMode::MapPanel
    }
}

/// Why a command was rejected. A rejected command leaves the state unchanged.
#[derive(PartialEq, Eq, Structural, Clone, Copy, Debug)]
pub enum TrackerError {
    /// A removal named a display position beyond the roster.
    IndexOutOfRange,
    /// Starting with an empty roster, or advancing outside an encounter.
    PreconditionFailed,
}

/// The mathematical value of the tracker's state.
#[verifier::ext_equal]
pub ghost struct StateModel {
    pub entities: Seq<EntityModel>,
    pub creating_entity: bool,
    pub new_entity_name: Seq<char>,
    pub new_entity_hp: u32,
    pub new_entity_init: Seq<char>,
    pub new_entity_init_mod: Seq<char>,
    pub encounter_started: bool,
    pub current_entity: usize,
    pub round: u32,
    pub mode: AppMode,
    pub dice_type: DiceType,
    pub dice_quantity: Seq<char>,
    pub dice_modifier: Seq<char>,
    pub dice_breakdown: Seq<(i32, i32)>,
    pub dice_roll_total: i128,
}

impl StateModel {
    /// The state's invariant: storage is sorted ascending by the ordering
    /// key, and while an encounter runs the turn pointer is in bounds and
    /// the round count has started.
    pub open spec fn wf(self) -> bool {
        &&& sorted_by_key(self.entities)
        &&& (self.encounter_started ==> self.current_entity < self.entities.len() && self.round
            >= 1)
    }
}

/// A fresh session: empty roster, no draft, no encounter, round 1, dice at
/// their defaults.
pub open spec fn initial_state(mode: AppMode) -> StateModel {
    StateModel {
        entities: Seq::empty(),
        creating_entity: false,
        new_entity_name: Seq::empty(),
        new_entity_hp: 0,
        new_entity_init: Seq::empty(),
        new_entity_init_mod: Seq::empty(),
        encounter_started: false,
        current_entity: 0,
        round: 1,
        mode,
        dice_type: DiceType::D4,
        dice_quantity: Seq::empty(),
        dice_modifier: Seq::empty(),
        dice_breakdown: Seq::empty(),
        dice_roll_total: 0,
    }
}

/// A rolled draft initiative: the draw plus the parsed modifier, floored
/// at 1.
pub open spec fn rolled_init(draw: int, modifier: int) -> int {
    if draw + modifier < 1 {
        1
    } else {
        draw + modifier
    }
}

/// One turn advance: the pointer moves down the display order and wraps to
/// the top, starting a new round. The round count saturates rather than
/// overflow.
pub open spec fn advance_spec(m: StateModel) -> StateModel {
    if m.current_entity + 1 < m.entities.len() {
        StateModel { current_entity: (m.current_entity + 1) as usize, ..m }
    } else {
        StateModel {
            current_entity: 0,
            round: if m.round < u32::MAX {
                (m.round + 1) as u32
            } else {
                m.round
            },
            ..m
        }
    }
}

/// `advance_spec` iterated `k` times.
pub open spec fn advance_n(m: StateModel, k: nat) -> StateModel
    decreases k,
{
    if k == 0 {
        m
    } else {
        advance_spec(advance_n(m, (k - 1) as nat))
    }
}

proof fn lemma_advance_prefix(m: StateModel, k: nat)
    requires
        m.entities.len() >= 1,
        m.entities.len() <= usize::MAX,
        m.current_entity == 0,
        k < m.entities.len(),
    ensures
        advance_n(m, k) =~= (StateModel { current_entity: k as usize, ..m }),
    decreases k,
{
    if k > 0 {
        lemma_advance_prefix(m, (k - 1) as nat);
    }
}

/// Advancing the turn once per roster entity from the top returns the
/// pointer to the top and increments the round by exactly one.
pub proof fn lemma_advance_full_round(m: StateModel)
    requires
        m.wf(),
        m.encounter_started,
        m.current_entity == 0,
        m.entities.len() >= 1,
        m.entities.len() <= usize::MAX,
        m.round < u32::MAX,
    ensures
        advance_n(m, m.entities.len()) =~= (StateModel { round: (m.round + 1) as u32, ..m }),
{
    let n = m.entities.len();
    lemma_advance_prefix(m, (n - 1) as nat);
    assert(advance_n(m, n) == advance_spec(advance_n(m, (n - 1) as nat)));
}

/// A rolled draft initiative never commits below 1, whatever the modifier:
/// the floored roll is at least 1 and survives the draft's text round trip,
/// so confirming the draft yields an entity with that same initiative.
pub proof fn lemma_roll_floor(draw: int, modifier: int)
    requires
        1 <= draw <= 20,
        i32::MIN <= modifier <= i32::MAX,
    ensures
        rolled_init(draw, modifier) >= 1,
        parse_u32_default(dec_digits(rolled_init(draw, modifier)), 1) == rolled_init(
            draw,
            modifier,
        ),
{
    crate::text::lemma_parse_of_dec_digits(rolled_init(draw, modifier) as u32, 1);
}

/// The tracker's state: the roster, the entity draft, the encounter turn
/// tracker, and the dice roller's inputs and last result.
pub struct TemplateApp {
    entities: Vec<Entity>,
    creating_entity: bool,
    new_entity_name: String,
    new_entity_hp: u32,
    new_entity_init: String,
    new_entity_init_mod: String,
    encounter_started: bool,
    current_entity: usize,
    round: u32,
    mode: AppMode,
    dice_type: DiceType,
    dice_quantity: String,
    dice_modifier: String,
    dice_breakdown: Vec<(i32, i32)>,
    dice_roll_total: i128,
}

impl View for TemplateApp {
    type V = StateModel;

    closed spec fn view(&self) -> StateModel {
        StateModel {
            entities: roster_view(self.entities@),
            creating_entity: self.creating_entity,
            new_entity_name: self.new_entity_name@,
            new_entity_hp: self.new_entity_hp,
            new_entity_init: self.new_entity_init@,
            new_entity_init_mod: self.new_entity_init_mod@,
            encounter_started: self.encounter_started,
            current_entity: self.current_entity,
            round: self.round,
            mode: self.mode,
            dice_type: self.dice_type,
            dice_quantity: self.dice_quantity@,
            dice_modifier: self.dice_modifier@,
            dice_breakdown: self.dice_breakdown@,
            dice_roll_total: self.dice_roll_total,
        }
    }
}

impl TemplateApp {
    pub fn new() -> (r: Self)
        ensures
            r@ =~= initial_state(AppMode::MapPanel),
            r@.wf(),
    {
        TemplateApp {
            entities: Vec::new(),
            creating_entity: false,
            new_entity_name: String::new(),
            new_entity_hp: 0,
            new_entity_init: String::new(),
            new_entity_init_mod: String::new(),
            encounter_started: false,
            current_entity: 0,
            round: 1,
            mode: AppMode::MapPanel,
            dice_type: DiceType::D4,
            dice_quantity: String::new(),
            dice_modifier: String::new(),
            dice_breakdown: Vec::new(),
            dice_roll_total: 0,
        }
    }

    /// The "New" command: reset the roster, the draft, the encounter and
    /// the dice to a fresh session. The shown panel is kept.
    pub fn new_session(&mut self)
        ensures
            final(self)@ =~= initial_state(old(self)@.mode),
            final(self)@.wf(),
    {
        let mode = self.mode;
        *self = TemplateApp::new();
        self.mode = mode;
    }

    pub fn set_mode(&mut self, mode: AppMode)
        ensures
            final(self)@ =~= (StateModel { mode, ..old(self)@ }),
    {
        self.mode = mode;
    }

    /// Open the "create entity" dialog with a blank draft.
    pub fn open_create_entity(&mut self)
        ensures
            final(self)@ =~= (StateModel {
                creating_entity: true,
                new_entity_name: Seq::empty(),
                new_entity_hp: 0,
                new_entity_init: Seq::empty(),
                new_entity_init_mod: Seq::empty(),
                ..old(self)@
            }),
    {
        self.creating_entity = true;
        self.new_entity_name = String::new();
        self.new_entity_hp = 0;
        self.new_entity_init = String::new();
        self.new_entity_init_mod = String::new();
    }

    pub fn set_draft_name(&mut self, name: String)
        ensures
            final(self)@ =~= (StateModel { new_entity_name: name@, ..old(self)@ }),
    {
        self.new_entity_name = name;
    }

    pub fn set_draft_hp(&mut self, hp: u32)
        ensures
            final(self)@ =~= (StateModel { new_entity_hp: hp, ..old(self)@ }),
    {
        self.new_entity_hp = hp;
    }

    pub fn set_draft_init_text(&mut self, text: String)
        ensures
            final(self)@ =~= (StateModel { new_entity_init: text@, ..old(self)@ }),
    {
        self.new_entity_init = text;
    }

    pub fn set_draft_init_mod_text(&mut self, text: String)
        ensures
            final(self)@ =~= (StateModel { new_entity_init_mod: text@, ..old(self)@ }),
    {
        self.new_entity_init_mod = text;
    }

    /// Store a rolled initiative in the draft: the given d20 draw plus the
    /// parsed modifier, floored at 1, rendered as decimal text.
    pub fn set_draft_init_from_roll(&mut self, draw: i32)
        requires
            1 <= draw <= 20,
        ensures
            final(self)@ =~= (StateModel {
                new_entity_init: dec_digits(
                    rolled_init(
                        draw as int,
                        parse_i32_default(old(self)@.new_entity_init_mod, 0) as int,
                    ),
                ),
                ..old(self)@
            }),
    {
        let m = parse_i32_or(self.new_entity_init_mod.as_str(), 0);
        let mut total: i64 = draw as i64 + m as i64;
        if total < 1 {
            total = 1;
        }
        let v = total as u32;
        self.new_entity_init = u32_to_string(v);
    }

    /// Roll the draft's initiative: one uniform d20 draw, offset by the
    /// parsed modifier and floored at 1.
    pub fn roll_draft_initiative(&mut self)
        ensures
            exists|draw: int|
                #![trigger rolled_init(draw, parse_i32_default(old(self)@.new_entity_init_mod, 0) as int)]
                1 <= draw <= 20 && final(self)@ =~= (StateModel {
                    new_entity_init: dec_digits(
                        rolled_init(
                            draw,
                            parse_i32_default(old(self)@.new_entity_init_mod, 0) as int,
                        ),
                    ),
                    ..old(self)@
                }),
    {
        let draw = draw_in_range(1, 20);
        self.set_draft_init_from_roll(draw);
        proof {
            let d = draw as int;
            assert(1 <= d <= 20 && final(self)@ =~= (StateModel {
                new_entity_init: dec_digits(
                    rolled_init(d, parse_i32_default(old(self)@.new_entity_init_mod, 0) as int),
                ),
                ..old(self)@
            }));
        }
    }

    /// The entity a confirmed draft commits: unparsable initiative text
    /// defaults to 1, an unparsable modifier to 0.
    pub open spec fn drafted_entity(m: StateModel) -> EntityModel {
        EntityModel {
            init: parse_u32_default(m.new_entity_init, 1),
            dex_mod: parse_i32_default(m.new_entity_init_mod, 0),
            name: m.new_entity_name,
            hp: m.new_entity_hp,
        }
    }

    /// Commit the draft: build the entity, place it at its key's position
    /// in the roster, clear the draft and close the dialog.
    pub fn confirm_create_entity(&mut self)
        requires
            old(self)@.wf(),
        ensures
            final(self)@.wf(),
            final(self)@ =~= (StateModel {
                entities: old(self)@.entities.insert(
                    insert_pos(old(self)@.entities, Self::drafted_entity(old(self)@)),
                    Self::drafted_entity(old(self)@),
                ),
                creating_entity: false,
                new_entity_name: Seq::empty(),
                new_entity_hp: 0,
                new_entity_init: Seq::empty(),
                new_entity_init_mod: Seq::empty(),
                ..old(self)@
            }),
    {
        let init = parse_u32_or(self.new_entity_init.as_str(), 1);
        let dm = parse_i32_or(self.new_entity_init_mod.as_str(), 0);
        let ent = Entity::new(self.new_entity_name.clone(), self.new_entity_hp, init, dm);
        insert_sorted(&mut self.entities, ent);
        self.creating_entity = false;
        self.new_entity_name = String::new();
        self.new_entity_hp = 0;
        self.new_entity_init = String::new();
        self.new_entity_init_mod = String::new();
    }

    /// Discard the draft: all draft fields are cleared and the dialog
    /// closes; nothing else changes.
    pub fn cancel_create_entity(&mut self)
        ensures
            final(self)@ =~= (StateModel {
                creating_entity: false,
                new_entity_name: Seq::empty(),
                new_entity_hp: 0,
                new_entity_init: Seq::empty(),
                new_entity_init_mod: Seq::empty(),
                ..old(self)@
            }),
    {
        self.creating_entity = false;
        self.new_entity_name = String::new();
        self.new_entity_hp = 0;
        self.new_entity_init = String::new();
        self.new_entity_init_mod = String::new();
    }

    /// Remove the entity at a display position (highest key first). An out
    /// of range position is rejected and changes nothing. While an
    /// encounter runs, a turn pointer left out of bounds is reset to the
    /// top, and removing the last entity ends the encounter.
    pub fn remove_entity(&mut self, display_index: usize) -> (r: Result<(), TrackerError>)
        requires
            old(self)@.wf(),
        ensures
            final(self)@.wf(),
            display_index >= old(self)@.entities.len() ==> r == Err::<(), TrackerError>(
                TrackerError::IndexOutOfRange,
            ) && final(self)@ =~= old(self)@,
            display_index < old(self)@.entities.len() ==> ({
                let m = old(self)@;
                let remaining = m.entities.remove(m.entities.len() - 1 - display_index);
                &&& r == Ok::<(), TrackerError>(())
                &&& display_of(final(self)@.entities) =~= display_of(m.entities).remove(
                    display_index as int,
                )
                &&& final(self)@ =~= (StateModel {
                    entities: remaining,
                    encounter_started: m.encounter_started && remaining.len() > 0,
                    current_entity: if m.encounter_started && m.current_entity
                        >= remaining.len() {
                        0
                    } else {
                        m.current_entity
                    },
                    ..m
                })
            }),
    {
        let len = self.entities.len();
        if display_index >= len {
            return Err(TrackerError::IndexOutOfRange);
        }
        let ghost m = self@;
        let ghost k = m.entities.len() - 1 - display_index;
        let storage_index = len - 1 - display_index;
        self.entities.remove(storage_index);
        proof {
            assert(roster_view(self.entities@) =~= m.entities.remove(k));
            lemma_remove_keeps_sorted(m.entities, k);
            lemma_remove_display(m.entities, display_index as int);
        }
        if self.encounter_started {
            if self.entities.len() == 0 {
                self.encounter_started = false;
                self.current_entity = 0;
            } else if self.current_entity >= self.entities.len() {
                self.current_entity = 0;
            }
        }
        Ok(())
    }

    /// Begin an encounter: rejected on an empty roster, leaving the state
    /// (and in particular `encounter_started == false`) unchanged. On a
    /// non-empty roster the turn pointer goes to the top and the round
    /// count to 1.
    pub fn start_encounter(&mut self) -> (r: Result<(), TrackerError>)
        requires
            old(self)@.wf(),
        ensures
            final(self)@.wf(),
            old(self)@.entities.len() == 0 ==> r == Err::<(), TrackerError>(
                TrackerError::PreconditionFailed,
            ) && final(self)@ =~= old(self)@ && !final(self)@.encounter_started,
            old(self)@.entities.len() > 0 ==> r == Ok::<(), TrackerError>(()) && final(self)@
                =~= (StateModel {
                encounter_started: true,
                current_entity: 0,
                round: 1,
                ..old(self)@
            }),
    {
        if self.entities.len() == 0 {
            return Err(TrackerError::PreconditionFailed);
        }
        self.encounter_started = true;
        self.current_entity = 0;
        self.round = 1;
        Ok(())
    }

    /// End the encounter. The turn pointer and round count are kept as they
    /// are until the next start or session reset.
    pub fn stop_encounter(&mut self)
        ensures
            final(self)@ =~= (StateModel { encounter_started: false, ..old(self)@ }),
            old(self)@.wf() ==> final(self)@.wf(),
    {
        self.encounter_started = false;
    }

    /// Advance the turn: rejected outside an encounter, leaving the state
    /// unchanged; otherwise exactly one `advance_spec` step.
    pub fn advance_turn(&mut self) -> (r: Result<(), TrackerError>)
        requires
            old(self)@.wf(),
        ensures
            final(self)@.wf(),
            !old(self)@.encounter_started ==> r == Err::<(), TrackerError>(
                TrackerError::PreconditionFailed,
            ) && final(self)@ =~= old(self)@,
            old(self)@.encounter_started ==> r == Ok::<(), TrackerError>(()) && final(self)@
                =~= advance_spec(old(self)@),
    {
        if !self.encounter_started {
            return Err(TrackerError::PreconditionFailed);
        }
        let len = self.entities.len();
        let next = self.current_entity + 1;
        if next >= len {
            self.current_entity = 0;
            if self.round < u32::MAX {
                self.round = self.round + 1;
            }
        } else {
            self.current_entity = next;
        }
        Ok(())
    }

    pub fn set_dice_type(&mut self, dice_type: DiceType)
        ensures
            final(self)@ =~= (StateModel { dice_type, ..old(self)@ }),
    {
        self.dice_type = dice_type;
    }

    pub fn set_dice_quantity_text(&mut self, text: String)
        ensures
            final(self)@ =~= (StateModel { dice_quantity: text@, ..old(self)@ }),
    {
        self.dice_quantity = text;
    }

    pub fn set_dice_modifier_text(&mut self, text: String)
        ensures
            final(self)@ =~= (StateModel { dice_modifier: text@, ..old(self)@ }),
    {
        self.dice_modifier = text;
    }

    /// Roll the dice: one uniform draw per requested die (unparsable
    /// quantity text means zero dice), the parsed modifier recorded beside
    /// every raw roll, and the total rebuilt from scratch. The prior
    /// breakdown is discarded.
    pub fn roll_dice(&mut self)
        ensures
            ({
                let q = parse_u32_default(old(self)@.dice_quantity, 0) as int;
                let md = parse_i32_default(old(self)@.dice_modifier, 0);
                let sides = spec_dice_val(old(self)@.dice_type);
                let s = final(self)@.dice_breakdown;
                &&& s.len() == q
                &&& forall|i: int|
                    0 <= i < s.len() ==> 1 <= (#[trigger] s[i]).0 <= sides && s[i].1 == md
                &&& final(self)@.dice_roll_total == sum_rolls(s)
                &&& final(self)@ =~= (StateModel {
                    dice_breakdown: s,
                    dice_roll_total: final(self)@.dice_roll_total,
                    ..old(self)@
                })
            }),
            old(self)@.wf() ==> final(self)@.wf(),
    {
        let q = parse_u32_or(self.dice_quantity.as_str(), 0);
        let md = parse_i32_or(self.dice_modifier.as_str(), 0);
        let sides = get_dice_val(self.dice_type);
        self.dice_roll_total = 0;
        self.dice_breakdown.clear();
        let mut n: u32 = 0;
        while n < q
            invariant
                n <= q,
                q == parse_u32_default(old(self)@.dice_quantity, 0),
                md == parse_i32_default(old(self)@.dice_modifier, 0),
                1 <= sides == spec_dice_val(old(self)@.dice_type) <= 100,
                self@.dice_breakdown.len() == n as int,
                forall|i: int|
                    0 <= i < self@.dice_breakdown.len() ==> 1 <= (#[trigger] self@.dice_breakdown[i]).0
                        <= sides && self@.dice_breakdown[i].1 == md,
                self@.dice_roll_total == sum_rolls(self@.dice_breakdown),
                -(n as int) * 0x8000_0000 <= self@.dice_roll_total <= (n as int) * 0x8000_0064,
                self@ =~= (StateModel {
                    dice_breakdown: self@.dice_breakdown,
                    dice_roll_total: self@.dice_roll_total,
                    ..old(self)@
                }),
            decreases q - n,
        {
            let roll = draw_in_range(1, sides);
            let ghost before = self@.dice_breakdown;
            self.dice_breakdown.push((roll, md));
            proof {
                assert(self@.dice_breakdown.drop_last() =~= before);
                assert(self@.dice_breakdown.last() == (roll, md));
            }
            let add_amt: i128 = roll as i128 + md as i128;
            proof {
                assert((n as int) * 0x8000_0000 + 0x8000_0000 == (n as int + 1) * 0x8000_0000)
                    by (nonlinear_arith);
                assert((n as int) * 0x8000_0064 + 0x8000_0064 == (n as int + 1) * 0x8000_0064)
                    by (nonlinear_arith);
                assert((n as int + 1) * 0x8000_0000 <= 0x1_0000_0000 * 0x8000_0000)
                    by (nonlinear_arith)
                    requires
                        n as int + 1 <= 0x1_0000_0000,
                ;
                assert((n as int + 1) * 0x8000_0064 <= 0x1_0000_0000 * 0x8000_0064)
                    by (nonlinear_arith)
                    requires
                        n as int + 1 <= 0x1_0000_0000,
                ;
            }
            self.dice_roll_total = self.dice_roll_total + add_amt;
            n += 1;
        }
    }
    pub fn entity_count(&self) -> (r: usize)
        ensures
            r == self@.entities.len(),
    {
        self.entities.len()
    }

    /// The entity at a display position: display order is the reverse of
    /// storage, highest ordering key first.
    pub fn entity_at_display(&self, display_index: usize) -> (r: Entity)
        requires
            display_index < self@.entities.len(),
        ensures
            r@ == display_of(self@.entities)[display_index as int],
    {
        let e = self.entities[self.entities.len() - 1 - display_index].clone_entity();
        proof {
            assert(display_of(self@.entities)[display_index as int] == self@.entities[self@.entities.len()
                - 1 - display_index]);
        }
        e
    }

    /// The entity at a storage position (ascending key order).
    pub fn entity_at(&self, i: usize) -> (r: Entity)
        requires
            i < self@.entities.len(),
        ensures
            r@ == self@.entities[i as int],
    {
        self.entities[i].clone_entity()
    }

    pub fn is_creating_entity(&self) -> (r: bool)
        ensures
            r == self@.creating_entity,
    {
        self.creating_entity
    }

    pub fn draft_name(&self) -> (r: String)
        ensures
            r@ == self@.new_entity_name,
    {
        self.new_entity_name.clone()
    }

    pub fn draft_hp(&self) -> (r: u32)
        ensures
            r == self@.new_entity_hp,
    {
        self.new_entity_hp
    }

    pub fn draft_init_text(&self) -> (r: String)
        ensures
            r@ == self@.new_entity_init,
    {
        self.new_entity_init.clone()
    }

    pub fn draft_init_mod_text(&self) -> (r: String)
        ensures
            r@ == self@.new_entity_init_mod,
    {
        self.new_entity_init_mod.clone()
    }

    pub fn is_encounter_started(&self) -> (r: bool)
        ensures
            r == self@.encounter_started,
    {
        self.encounter_started
    }

    pub fn current_turn_index(&self) -> (r: usize)
        ensures
            r == self@.current_entity,
    {
        self.current_entity
    }

    pub fn get_round(&self) -> (r: u32)
        ensures
            r == self@.round,
    {
        self.round
    }

    pub fn get_mode(&self) -> (r: AppMode)
        ensures
            r == self@.mode,
    {
        self.mode
    }

    pub fn get_dice_type(&self) -> (r: DiceType)
        ensures
            r == self@.dice_type,
    {
        self.dice_type
    }

    pub fn dice_quantity_text(&self) -> (r: String)
        ensures
            r@ == self@.dice_quantity,
    {
        self.dice_quantity.clone()
    }

    pub fn dice_modifier_text(&self) -> (r: String)
        ensures
            r@ == self@.dice_modifier,
    {
        self.dice_modifier.clone()
    }

    pub fn dice_breakdown_len(&self) -> (r: usize)
        ensures
            r == self@.dice_breakdown.len(),
    {
        self.dice_breakdown.len()
    }

    pub fn dice_breakdown_at(&self, i: usize) -> (r: (i32, i32))
        requires
            i < self@.dice_breakdown.len(),
        ensures
            r == self@.dice_breakdown[i as int],
    {
        self.dice_breakdown[i]
    }

    pub fn dice_total(&self) -> (r: i128)
        ensures
            r == self@.dice_roll_total,
    {
        self.dice_roll_total
    }

    /// Assemble a state from its parts, as a deserialized snapshot does.
    pub fn from_parts(
        entities: Vec<Entity>,
        creating_entity: bool,
        new_entity_name: String,
        new_entity_hp: u32,
        new_entity_init: String,
        new_entity_init_mod: String,
        encounter_started: bool,
        current_entity: usize,
        round: u32,
        mode: AppMode,
        dice_type: DiceType,
        dice_quantity: String,
        dice_modifier: String,
        dice_breakdown: Vec<(i32, i32)>,
        dice_roll_total: i128,
    ) -> (r: Self)
        ensures
            r@ =~= (StateModel {
                entities: roster_view(entities@),
                creating_entity,
                new_entity_name: new_entity_name@,
                new_entity_hp,
                new_entity_init: new_entity_init@,
                new_entity_init_mod: new_entity_init_mod@,
                encounter_started,
                current_entity,
                round,
                mode,
                dice_type,
                dice_quantity: dice_quantity@,
                dice_modifier: dice_modifier@,
                dice_breakdown: dice_breakdown@,
                dice_roll_total,
            }),
    {
        TemplateApp {
            entities,
            creating_entity,
            new_entity_name,
            new_entity_hp,
            new_entity_init,
            new_entity_init_mod,
            encounter_started,
            current_entity,
            round,
            mode,
            dice_type,
            dice_quantity,
            dice_modifier,
            dice_breakdown,
            dice_roll_total,
        }
    }
}

impl Default for TemplateApp {
    fn default() -> (r: Self)
        ensures
            r@ =~= initial_state(AppMode::MapPanel),
            r@.wf(),
    {
        TemplateApp::new()
    }
}

} // verus!
