//! Snapshot serialization of the tracker's state as a flat token sequence.
//! The token form of a state is fixed here as a spec function; the encoder
//! produces exactly that form, and the decoder recovers the state from any
//! sequence in that form, so a serialized snapshot deserializes to a state
//! field for field identical to the original. Turning tokens into bytes on
//! disk is the presentation layer's business.

use vstd::prelude::*;
use crate::dice::DiceType;
use crate::entity::{Entity, EntityModel};
use crate::roster::roster_view;
use crate::state::{AppMode, StateModel, TemplateApp};

verus! {

/// One flat value of a serialized snapshot.
#[derive(PartialEq, Debug, Clone)]
pub enum Token {
    Uint(u64),
    Int(i128),
    Flag(bool),
    Text(String),
}

/// The mathematical value of a `Token`.
#[verifier::ext_equal]
pub ghost enum TokenModel {
    Uint(u64),
    Int(i128),
    Flag(bool),
    Text(Seq<char>),
}

impl View for Token {
    type V = TokenModel;

    open spec fn view(&self) -> TokenModel {
        match self {
            Token::Uint(v) => TokenModel::Uint(*v),
            Token::Int(v) => TokenModel::Int(*v),
            Token::Flag(v) => TokenModel::Flag(*v),
            Token::Text(s) => TokenModel::Text(s@),
        }
    }
}

/// The mathematical contents of a token vector.
pub open spec fn tokens_view(s: Seq<Token>) -> Seq<TokenModel> {
    s.map_values(|t: Token| t@)
}

pub open spec fn spec_mode_code(m: AppMode) -> u64 {
    match m {
        AppMode::MapPanel => 0,
        AppMode::DiceRoller => 1,
        AppMode::Timers => 2,
    }
}

pub open spec fn spec_mode_of_code(c: u64) -> Option<AppMode> {
    if c == 0 {
        Some(AppMode::MapPanel)
    } else if c == 1 {
        Some(AppMode::DiceRoller)
    } else if c == 2 {
        Some(AppMode::Timers)
    } else {
        None
    }
}

fn mode_code(m: AppMode) -> (r: u64)
    ensures
        r == spec_mode_code(m),
{
    match m {
        AppMode::MapPanel => 0,
        AppMode::DiceRoller => 1,
        AppMode::Timers => 2,
    }
}

fn mode_of_code(c: u64) -> (r: Option<AppMode>)
    ensures
        r == spec_mode_of_code(c),
{
    if c == 0 {
        Some(AppMode::MapPanel)
    } else if c == 1 {
        Some(AppMode::DiceRoller)
    } else if c == 2 {
        Some(AppMode::Timers)
    } else {
        None
    }
}

pub open spec fn spec_dice_code(d: DiceType) -> u64 {
    match d {
        DiceType::D4 => 0,
        DiceType::D6 => 1,
        DiceType::D8 => 2,
        DiceType::D10 => 3,
        DiceType::D12 => 4,
        DiceType::D20 => 5,
        DiceType::D100 => 6,
    }
}

pub open spec fn spec_dice_of_code(c: u64) -> Option<DiceType> {
    if c == 0 {
        Some(DiceType::D4)
    } else if c == 1 {
        Some(DiceType::D6)
    } else if c == 2 {
        Some(DiceType::D8)
    } else if c == 3 {
        Some(DiceType::D10)
    } else if c == 4 {
        Some(DiceType::D12)
    } else if c == 5 {
        Some(DiceType::D20)
    } else if c == 6 {
        Some(DiceType::D100)
    } else {
        None
    }
}

fn dice_code(d: DiceType) -> (r: u64)
    ensures
        r == spec_dice_code(d),
{
    match d {
        DiceType::D4 => 0,
        DiceType::D6 => 1,
        DiceType::D8 => 2,
        DiceType::D10 => 3,
        DiceType::D12 => 4,
        DiceType::D20 => 5,
        DiceType::D100 => 6,
    }
}

fn dice_of_code(c: u64) -> (r: Option<DiceType>)
    ensures
        r == spec_dice_of_code(c),
{
    if c == 0 {
        Some(DiceType::D4)
    } else if c == 1 {
        Some(DiceType::D6)
    } else if c == 2 {
        Some(DiceType::D8)
    } else if c == 3 {
        Some(DiceType::D10)
    } else if c == 4 {
        Some(DiceType::D12)
    } else if c == 5 {
        Some(DiceType::D20)
    } else if c == 6 {
        Some(DiceType::D100)
    } else {
        None
    }
}

/// The four tokens of one entity.
pub open spec fn entity_tokens(e: EntityModel) -> Seq<TokenModel> {
    seq![
        TokenModel::Uint(e.init as u64),
        TokenModel::Int(e.dex_mod as i128),
        TokenModel::Text(e.name),
        TokenModel::Uint(e.hp as u64),
    ]
}

pub open spec fn roster_tokens(es: Seq<EntityModel>) -> Seq<TokenModel>
    decreases es.len(),
{
    if es.len() == 0 {
        Seq::empty()
    } else {
        roster_tokens(es.drop_last()) + entity_tokens(es.last())
    }
}

pub proof fn lemma_roster_tokens_len(es: Seq<EntityModel>)
    ensures
        roster_tokens(es).len() == 4 * es.len(),
    decreases es.len(),
{
    if es.len() > 0 {
        lemma_roster_tokens_len(es.drop_last());
    }
}

pub proof fn lemma_roster_tokens_index(es: Seq<EntityModel>, i: int)
    requires
        0 <= i < es.len(),
    ensures
        roster_tokens(es)[4 * i] == TokenModel::Uint(es[i].init as u64),
        roster_tokens(es)[4 * i + 1] == TokenModel::Int(es[i].dex_mod as i128),
        roster_tokens(es)[4 * i + 2] == TokenModel::Text(es[i].name),
        roster_tokens(es)[4 * i + 3] == TokenModel::Uint(es[i].hp as u64),
    decreases es.len(),
{
    lemma_roster_tokens_len(es.drop_last());
    if i == es.len() - 1 {
        assert(es.last() == es[i]);
    } else {
        lemma_roster_tokens_index(es.drop_last(), i);
        assert(es.drop_last()[i] == es[i]);
    }
}

/// The two tokens of one breakdown entry.
pub open spec fn pair_tokens(p: (i32, i32)) -> Seq<TokenModel> {
    seq![TokenModel::Int(p.0 as i128), TokenModel::Int(p.1 as i128)]
}

pub open spec fn breakdown_tokens(s: Seq<(i32, i32)>) -> Seq<TokenModel>
    decreases s.len(),
{
    if s.len() == 0 {
        Seq::empty()
    } else {
        breakdown_tokens(s.drop_last()) + pair_tokens(s.last())
    }
}

pub proof fn lemma_breakdown_tokens_len(s: Seq<(i32, i32)>)
    ensures
        breakdown_tokens(s).len() == 2 * s.len(),
    decreases s.len(),
{
    if s.len() > 0 {
        lemma_breakdown_tokens_len(s.drop_last());
    }
}

pub proof fn lemma_breakdown_tokens_index(s: Seq<(i32, i32)>, i: int)
    requires
        0 <= i < s.len(),
    ensures
        breakdown_tokens(s)[2 * i] == TokenModel::Int(s[i].0 as i128),
        breakdown_tokens(s)[2 * i + 1] == TokenModel::Int(s[i].1 as i128),
    decreases s.len(),
{
    lemma_breakdown_tokens_len(s.drop_last());
    if i == s.len() - 1 {
        assert(s.last() == s[i]);
    } else {
        lemma_breakdown_tokens_index(s.drop_last(), i);
        assert(s.drop_last()[i] == s[i]);
    }
}

/// The fixed scalar prefix of a snapshot: every field except the two lists,
/// then the roster's length.
pub open spec fn header_tokens(m: StateModel) -> Seq<TokenModel> {
    seq![
        TokenModel::Flag(m.creating_entity),
        TokenModel::Text(m.new_entity_name),
        TokenModel::Uint(m.new_entity_hp as u64),
        TokenModel::Text(m.new_entity_init),
        TokenModel::Text(m.new_entity_init_mod),
        TokenModel::Flag(m.encounter_started),
        TokenModel::Uint(m.current_entity as u64),
        TokenModel::Uint(m.round as u64),
        TokenModel::Uint(spec_mode_code(m.mode)),
        TokenModel::Uint(spec_dice_code(m.dice_type)),
        TokenModel::Text(m.dice_quantity),
        TokenModel::Text(m.dice_modifier),
        TokenModel::Int(m.dice_roll_total),
        TokenModel::Uint(m.entities.len() as u64),
    ]
}

/// The token form of a whole state: the scalar prefix, the roster's
/// entities, the breakdown's length, the breakdown's entries.
pub open spec fn state_tokens(m: StateModel) -> Seq<TokenModel> {
    header_tokens(m) + roster_tokens(m.entities) + seq![
        TokenModel::Uint(m.dice_breakdown.len() as u64),
    ] + breakdown_tokens(m.dice_breakdown)
}

/// Whether `tv` is the token form of the (machine-representable) state `m`.
pub open spec fn snapshot_of(tv: Seq<TokenModel>, m: StateModel) -> bool {
    &&& m.entities.len() <= usize::MAX
    &&& m.dice_breakdown.len() <= usize::MAX
    &&& tv =~= state_tokens(m)
}

/// Every position of a snapshot, spelled out for the decoder.
pub proof fn lemma_state_tokens_facts(m: StateModel)
    ensures
        state_tokens(m).len() == 15 + 4 * m.entities.len() as int + 2 * m.dice_breakdown.len() as int,
        state_tokens(m)[0] == TokenModel::Flag(m.creating_entity),
        state_tokens(m)[1] == TokenModel::Text(m.new_entity_name),
        state_tokens(m)[2] == TokenModel::Uint(m.new_entity_hp as u64),
        state_tokens(m)[3] == TokenModel::Text(m.new_entity_init),
        state_tokens(m)[4] == TokenModel::Text(m.new_entity_init_mod),
        state_tokens(m)[5] == TokenModel::Flag(m.encounter_started),
        state_tokens(m)[6] == TokenModel::Uint(m.current_entity as u64),
        state_tokens(m)[7] == TokenModel::Uint(m.round as u64),
        state_tokens(m)[8] == TokenModel::Uint(spec_mode_code(m.mode)),
        state_tokens(m)[9] == TokenModel::Uint(spec_dice_code(m.dice_type)),
        state_tokens(m)[10] == TokenModel::Text(m.dice_quantity),
        state_tokens(m)[11] == TokenModel::Text(m.dice_modifier),
        state_tokens(m)[12] == TokenModel::Int(m.dice_roll_total),
        state_tokens(m)[13] == TokenModel::Uint(m.entities.len() as u64),
        forall|k: int|
            0 <= k < 4 * m.entities.len() as int ==> state_tokens(m)[14 + k]
                == #[trigger] roster_tokens(m.entities)[k],
        state_tokens(m)[14 + 4 * m.entities.len() as int] == TokenModel::Uint(
            m.dice_breakdown.len() as u64,
        ),
        forall|k: int|
            0 <= k < 2 * m.dice_breakdown.len() as int ==> state_tokens(m)[15 + 4
                * m.entities.len() + k] == #[trigger] breakdown_tokens(m.dice_breakdown)[k],
{
    lemma_roster_tokens_len(m.entities);
    lemma_breakdown_tokens_len(m.dice_breakdown);
}

/// Serialize a state. The result is exactly the state's token form.
pub fn encode_state(app: &TemplateApp) -> (r: Vec<Token>)
    ensures
        tokens_view(r@) =~= state_tokens(app@),
        app@.entities.len() <= usize::MAX,
        app@.dice_breakdown.len() <= usize::MAX,
{
    let ghost m = app@;
    let mut out: Vec<Token> = Vec::new();
    out.push(Token::Flag(app.is_creating_entity()));
    out.push(Token::Text(app.draft_name()));
    out.push(Token::Uint(app.draft_hp() as u64));
    out.push(Token::Text(app.draft_init_text()));
    out.push(Token::Text(app.draft_init_mod_text()));
    out.push(Token::Flag(app.is_encounter_started()));
    out.push(Token::Uint(app.current_turn_index() as u64));
    out.push(Token::Uint(app.get_round() as u64));
    out.push(Token::Uint(mode_code(app.get_mode())));
    out.push(Token::Uint(dice_code(app.get_dice_type())));
    out.push(Token::Text(app.dice_quantity_text()));
    out.push(Token::Text(app.dice_modifier_text()));
    out.push(Token::Int(app.dice_total()));
    let n = app.entity_count();
    out.push(Token::Uint(n as u64));
    proof {
        assert(tokens_view(out@) =~= header_tokens(m));
    }
    let mut i: usize = 0;
    while i < n
        invariant
            i <= n == m.entities.len(),
            m == app@,
            tokens_view(out@) =~= header_tokens(m) + roster_tokens(m.entities.take(i as int)),
        decreases n - i,
    {
        let e = app.entity_at(i);
        let ghost prev = out@;
        out.push(Token::Uint(e.get_init() as u64));
        out.push(Token::Int(e.get_dex_mod() as i128));
        out.push(Token::Text(e.get_name()));
        out.push(Token::Uint(e.get_hp() as u64));
        proof {
            let taken = m.entities.take(i + 1);
            assert(taken.drop_last() =~= m.entities.take(i as int));
            assert(taken.last() == m.entities[i as int]);
            let ent = entity_tokens(m.entities[i as int]);
            assert(roster_tokens(taken) == roster_tokens(m.entities.take(i as int)) + ent);
            assert(out@.len() == prev.len() + 4);
            assert(tokens_view(out@)[prev.len() as int] == ent[0]);
            assert(tokens_view(out@)[prev.len() as int + 1] == ent[1]);
            assert(tokens_view(out@)[prev.len() as int + 2] == ent[2]);
            assert(tokens_view(out@)[prev.len() as int + 3] == ent[3]);
            assert(forall|k: int| 0 <= k < prev.len() ==> out@[k] == prev[k]);
            assert(tokens_view(out@) =~= tokens_view(prev) + ent);
            assert(tokens_view(out@) =~= header_tokens(m) + roster_tokens(taken));
        }
        i += 1;
    }
    proof {
        assert(m.entities.take(n as int) =~= m.entities);
    }
    let p = app.dice_breakdown_len();
    out.push(Token::Uint(p as u64));
    let mut j: usize = 0;
    while j < p
        invariant
            j <= p == m.dice_breakdown.len(),
            m == app@,
            tokens_view(out@) =~= header_tokens(m) + roster_tokens(m.entities) + seq![
                TokenModel::Uint(m.dice_breakdown.len() as u64),
            ] + breakdown_tokens(m.dice_breakdown.take(j as int)),
        decreases p - j,
    {
        let pair = app.dice_breakdown_at(j);
        let ghost prev = out@;
        out.push(Token::Int(pair.0 as i128));
        out.push(Token::Int(pair.1 as i128));
        proof {
            let taken = m.dice_breakdown.take(j + 1);
            assert(taken.drop_last() =~= m.dice_breakdown.take(j as int));
            assert(taken.last() == m.dice_breakdown[j as int]);
            let pr = pair_tokens(m.dice_breakdown[j as int]);
            assert(breakdown_tokens(taken) == breakdown_tokens(m.dice_breakdown.take(j as int))
                + pr);
            assert(out@.len() == prev.len() + 2);
            assert(tokens_view(out@)[prev.len() as int] == pr[0]);
            assert(tokens_view(out@)[prev.len() as int + 1] == pr[1]);
            assert(forall|k: int| 0 <= k < prev.len() ==> out@[k] == prev[k]);
            assert(tokens_view(out@) =~= tokens_view(prev) + pr);
            assert(tokens_view(out@) =~= header_tokens(m) + roster_tokens(m.entities) + seq![
                TokenModel::Uint(m.dice_breakdown.len() as u64),
            ] + breakdown_tokens(taken));
        }
        j += 1;
    }
    proof {
        assert(m.dice_breakdown.take(p as int) =~= m.dice_breakdown);
    }
    out
}

fn read_u64_at(t: &Vec<Token>, i: usize) -> (r: Option<u64>)
    requires
        i < t@.len(),
    ensures
        match r {
            Some(v) => t@[i as int]@ == TokenModel::Uint(v),
            None => !(t@[i as int]@ is Uint),
        },
{
    match &t[i] {
        Token::Uint(v) => Some(*v),
        _ => None,
    }
}

fn read_i128_at(t: &Vec<Token>, i: usize) -> (r: Option<i128>)
    requires
        i < t@.len(),
    ensures
        match r {
            Some(v) => t@[i as int]@ == TokenModel::Int(v),
            None => !(t@[i as int]@ is Int),
        },
{
    match &t[i] {
        Token::Int(v) => Some(*v),
        _ => None,
    }
}

fn read_flag_at(t: &Vec<Token>, i: usize) -> (r: Option<bool>)
    requires
        i < t@.len(),
    ensures
        match r {
            Some(v) => t@[i as int]@ == TokenModel::Flag(v),
            None => !(t@[i as int]@ is Flag),
        },
{
    match &t[i] {
        Token::Flag(v) => Some(*v),
        _ => None,
    }
}

fn read_text_at(t: &Vec<Token>, i: usize) -> (r: Option<String>)
    requires
        i < t@.len(),
    ensures
        match r {
            Some(s) => t@[i as int]@ == TokenModel::Text(s@),
            None => !(t@[i as int]@ is Text),
        },
{
    match &t[i] {
        Token::Text(s) => Some(s.clone()),
        _ => None,
    }
}

/// The scalar fields of a snapshot, as the decoder reads them.
struct HeaderFields {
    creating: bool,
    draft_name: String,
    draft_hp: u32,
    draft_init: String,
    draft_init_mod: String,
    started: bool,
    current: usize,
    round: u32,
    mode: AppMode,
    dice_type: DiceType,
    qty_text: String,
    mod_text: String,
    total: i128,
    n: usize,
}

/// Read the scalar prefix. On any mismatch the input is no snapshot at all.
#[verifier::loop_isolation(false)]
#[verifier::rlimit(100)]
fn decode_header(t: &Vec<Token>) -> (r: Option<HeaderFields>)
    requires
        t@.len() >= 15,
    ensures
        match r {
            Some(h) => {
                let tv = tokens_view(t@);
                &&& tv[0] == TokenModel::Flag(h.creating)
                &&& tv[1] == TokenModel::Text(h.draft_name@)
                &&& tv[2] == TokenModel::Uint(h.draft_hp as u64)
                &&& tv[3] == TokenModel::Text(h.draft_init@)
                &&& tv[4] == TokenModel::Text(h.draft_init_mod@)
                &&& tv[5] == TokenModel::Flag(h.started)
                &&& tv[6] == TokenModel::Uint(h.current as u64)
                &&& tv[7] == TokenModel::Uint(h.round as u64)
                &&& tv[8] == TokenModel::Uint(spec_mode_code(h.mode))
                &&& tv[9] == TokenModel::Uint(spec_dice_code(h.dice_type))
                &&& tv[10] == TokenModel::Text(h.qty_text@)
                &&& tv[11] == TokenModel::Text(h.mod_text@)
                &&& tv[12] == TokenModel::Int(h.total)
                &&& tv[13] == TokenModel::Uint(h.n as u64)
                &&& 14 + 4 * (h.n as int) + 1 <= t@.len()
            },
            None => forall|m: StateModel| !snapshot_of(tokens_view(t@), m),
        },
{
    let ghost tv = tokens_view(t@);
    proof {
        assert forall|m: StateModel| snapshot_of(tv, m) implies {
            &&& tv[0] == state_tokens(m)[0]
            &&& tv[1] == state_tokens(m)[1]
            &&& tv[2] == state_tokens(m)[2]
            &&& tv[3] == state_tokens(m)[3]
            &&& tv[4] == state_tokens(m)[4]
            &&& tv[5] == state_tokens(m)[5]
            &&& tv[6] == state_tokens(m)[6]
            &&& tv[7] == state_tokens(m)[7]
            &&& tv[8] == state_tokens(m)[8]
            &&& tv[9] == state_tokens(m)[9]
            &&& tv[10] == state_tokens(m)[10]
            &&& tv[11] == state_tokens(m)[11]
            &&& tv[12] == state_tokens(m)[12]
            &&& tv[13] == state_tokens(m)[13]
            &&& state_tokens(m).len() == tv.len()
        } by {
            lemma_state_tokens_facts(m);
        }
    }
    let len_t = t.len();
    let creating = match read_flag_at(t, 0) {
        Some(v) => v,
        None => {
            proof {
                assert forall|m: StateModel| !snapshot_of(tv, m) by {
                    if snapshot_of(tv, m) {
                        lemma_state_tokens_facts(m);
                    }
                }
            }
            return None;
        },
    };
    let draft_name = match read_text_at(t, 1) {
        Some(v) => v,
        None => {
            proof {
                assert forall|m: StateModel| !snapshot_of(tv, m) by {
                    if snapshot_of(tv, m) {
                        lemma_state_tokens_facts(m);
                    }
                }
            }
            return None;
        },
    };
    let hp64 = match read_u64_at(t, 2) {
        Some(v) => v,
        None => {
            proof {
                assert forall|m: StateModel| !snapshot_of(tv, m) by {
                    if snapshot_of(tv, m) {
                        lemma_state_tokens_facts(m);
                    }
                }
            }
            return None;
        },
    };
    if hp64 > u32::MAX as u64 {
        proof {
            assert forall|m: StateModel| !snapshot_of(tv, m) by {
                if snapshot_of(tv, m) {
                    lemma_state_tokens_facts(m);
                }
            }
        }
        return None;
    }
    let draft_init = match read_text_at(t, 3) {
        Some(v) => v,
        None => {
            proof {
                assert forall|m: StateModel| !snapshot_of(tv, m) by {
                    if snapshot_of(tv, m) {
                        lemma_state_tokens_facts(m);
                    }
                }
            }
            return None;
        },
    };
    let draft_init_mod = match read_text_at(t, 4) {
        Some(v) => v,
        None => {
            proof {
                assert forall|m: StateModel| !snapshot_of(tv, m) by {
                    if snapshot_of(tv, m) {
                        lemma_state_tokens_facts(m);
                    }
                }
            }
            return None;
        },
    };
    let started = match read_flag_at(t, 5) {
        Some(v) => v,
        None => {
            proof {
                assert forall|m: StateModel| !snapshot_of(tv, m) by {
                    if snapshot_of(tv, m) {
                        lemma_state_tokens_facts(m);
                    }
                }
            }
            return None;
        },
    };
    let cur64 = match read_u64_at(t, 6) {
        Some(v) => v,
        None => {
            proof {
                assert forall|m: StateModel| !snapshot_of(tv, m) by {
                    if snapshot_of(tv, m) {
                        lemma_state_tokens_facts(m);
                    }
                }
            }
            return None;
        },
    };
    if cur64 > usize::MAX as u64 {
        proof {
            assert forall|m: StateModel| !snapshot_of(tv, m) by {
                if snapshot_of(tv, m) {
                    lemma_state_tokens_facts(m);
                }
            }
        }
        return None;
    }
    let round64 = match read_u64_at(t, 7) {
        Some(v) => v,
        None => {
            proof {
                assert forall|m: StateModel| !snapshot_of(tv, m) by {
                    if snapshot_of(tv, m) {
                        lemma_state_tokens_facts(m);
                    }
                }
            }
            return None;
        },
    };
    if round64 > u32::MAX as u64 {
        proof {
            assert forall|m: StateModel| !snapshot_of(tv, m) by {
                if snapshot_of(tv, m) {
                    lemma_state_tokens_facts(m);
                }
            }
        }
        return None;
    }
    let mode64 = match read_u64_at(t, 8) {
        Some(v) => v,
        None => {
            proof {
                assert forall|m: StateModel| !snapshot_of(tv, m) by {
                    if snapshot_of(tv, m) {
                        lemma_state_tokens_facts(m);
                    }
                }
            }
            return None;
        },
    };
    let mode = match mode_of_code(mode64) {
        Some(v) => v,
        None => {
            proof {
                assert forall|m: StateModel| !snapshot_of(tv, m) by {
                    if snapshot_of(tv, m) {
                        lemma_state_tokens_facts(m);
                        assert(spec_mode_of_code(spec_mode_code(m.mode)) == Some(m.mode));
                    }
                }
            }
            return None;
        },
    };
    proof {
        assert(spec_mode_code(mode) == mode64);
    }
    let dice64 = match read_u64_at(t, 9) {
        Some(v) => v,
        None => {
            proof {
                assert forall|m: StateModel| !snapshot_of(tv, m) by {
                    if snapshot_of(tv, m) {
                        lemma_state_tokens_facts(m);
                    }
                }
            }
            return None;
        },
    };
    let dice_type = match dice_of_code(dice64) {
        Some(v) => v,
        None => {
            proof {
                assert forall|m: StateModel| !snapshot_of(tv, m) by {
                    if snapshot_of(tv, m) {
                        lemma_state_tokens_facts(m);
                        assert(spec_dice_of_code(spec_dice_code(m.dice_type)) == Some(
                            m.dice_type,
                        ));
                    }
                }
            }
            return None;
        },
    };
    proof {
        assert(spec_dice_code(dice_type) == dice64);
    }
    let qty_text = match read_text_at(t, 10) {
        Some(v) => v,
        None => {
            proof {
                assert forall|m: StateModel| !snapshot_of(tv, m) by {
                    if snapshot_of(tv, m) {
                        lemma_state_tokens_facts(m);
                    }
                }
            }
            return None;
        },
    };
    let mod_text = match read_text_at(t, 11) {
        Some(v) => v,
        None => {
            proof {
                assert forall|m: StateModel| !snapshot_of(tv, m) by {
                    if snapshot_of(tv, m) {
                        lemma_state_tokens_facts(m);
                    }
                }
            }
            return None;
        },
    };
    let total = match read_i128_at(t, 12) {
        Some(v) => v,
        None => {
            proof {
                assert forall|m: StateModel| !snapshot_of(tv, m) by {
                    if snapshot_of(tv, m) {
                        lemma_state_tokens_facts(m);
                    }
                }
            }
            return None;
        },
    };
    let n64 = match read_u64_at(t, 13) {
        Some(v) => v,
        None => {
            proof {
                assert forall|m: StateModel| !snapshot_of(tv, m) by {
                    if snapshot_of(tv, m) {
                        lemma_state_tokens_facts(m);
                    }
                }
            }
            return None;
        },
    };
    if n64 > ((len_t - 15) / 4) as u64 {
        proof {
            assert forall|m: StateModel| !snapshot_of(tv, m) by {
                if snapshot_of(tv, m) {
                    lemma_state_tokens_facts(m);
                    assert(m.entities.len() as u64 == n64);
                }
            }
        }
        return None;
    }
    Some(
        HeaderFields {
            creating,
            draft_name,
            draft_hp: hp64 as u32,
            draft_init,
            draft_init_mod,
            started,
            current: cur64 as usize,
            round: round64 as u32,
            mode,
            dice_type,
            qty_text,
            mod_text,
            total,
            n: n64 as usize,
        },
    )
}

/// Read the roster's entities. On any mismatch, no snapshot with this
/// roster length matches the input.
#[verifier::loop_isolation(false)]
#[verifier::rlimit(100)]
fn decode_entities(t: &Vec<Token>, n: usize) -> (r: Option<Vec<Entity>>)
    requires
        14 + 4 * (n as int) <= t@.len(),
        tokens_view(t@)[13] == TokenModel::Uint(n as u64),
    ensures
        match r {
            Some(es) => {
                let tv = tokens_view(t@);
                &&& es@.len() == n
                &&& forall|k: int|
                    0 <= k < n as int ==> {
                        &&& tv[14 + 4 * k] == TokenModel::Uint(
                            (#[trigger] es@[k])@.init as u64,
                        )
                        &&& tv[14 + 4 * k + 1] == TokenModel::Int(es@[k]@.dex_mod as i128)
                        &&& tv[14 + 4 * k + 2] == TokenModel::Text(es@[k]@.name)
                        &&& tv[14 + 4 * k + 3] == TokenModel::Uint(es@[k]@.hp as u64)
                    }
            },
            None => forall|m: StateModel| !snapshot_of(tokens_view(t@), m),
        },
{
    let ghost tv = tokens_view(t@);
    let len_t = t.len();
    let mut es: Vec<Entity> = Vec::new();
    let mut i: usize = 0;
    while i < n
        invariant
            i <= n,
            es@.len() == i,
            forall|k: int|
                0 <= k < i ==> {
                    &&& tv[14 + 4 * k] == TokenModel::Uint((#[trigger] es@[k])@.init as u64)
                    &&& tv[14 + 4 * k + 1] == TokenModel::Int(es@[k]@.dex_mod as i128)
                    &&& tv[14 + 4 * k + 2] == TokenModel::Text(es@[k]@.name)
                    &&& tv[14 + 4 * k + 3] == TokenModel::Uint(es@[k]@.hp as u64)
                },
        decreases n - i,
    {
        proof {
            assert forall|m: StateModel| snapshot_of(tv, m) implies {
                &&& m.entities.len() == n as int
                &&& tv[14 + 4 * (i as int)] == TokenModel::Uint(
                    m.entities[i as int].init as u64,
                )
                &&& tv[14 + 4 * (i as int) + 1] == TokenModel::Int(
                    m.entities[i as int].dex_mod as i128,
                )
                &&& tv[14 + 4 * (i as int) + 2] == TokenModel::Text(m.entities[i as int].name)
                &&& tv[14 + 4 * (i as int) + 3] == TokenModel::Uint(
                    m.entities[i as int].hp as u64,
                )
            } by {
                lemma_state_tokens_facts(m);
                assert(tv[13] == state_tokens(m)[13]);
                lemma_roster_tokens_index(m.entities, i as int);
                assert(tv[14 + 4 * (i as int)] == state_tokens(m)[14 + 4 * (i as int)]);
                assert(tv[14 + 4 * (i as int) + 1] == state_tokens(m)[14 + 4 * (i as int) + 1]);
                assert(tv[14 + 4 * (i as int) + 2] == state_tokens(m)[14 + 4 * (i as int) + 2]);
                assert(tv[14 + 4 * (i as int) + 3] == state_tokens(m)[14 + 4 * (i as int) + 3]);
            }
        }
        let pos = 14 + 4 * i;
        let init64 = match read_u64_at(t, pos) {
            Some(v) => v,
            None => {
                return None;
            },
        };
        if init64 > u32::MAX as u64 {
            return None;
        }
        let dex128 = match read_i128_at(t, pos + 1) {
            Some(v) => v,
            None => {
                return None;
            },
        };
        if dex128 < i32::MIN as i128 || dex128 > i32::MAX as i128 {
            return None;
        }
        let ename = match read_text_at(t, pos + 2) {
            Some(v) => v,
            None => {
                return None;
            },
        };
        let ehp64 = match read_u64_at(t, pos + 3) {
            Some(v) => v,
            None => {
                return None;
            },
        };
        if ehp64 > u32::MAX as u64 {
            return None;
        }
        es.push(Entity::new(ename, ehp64 as u32, init64 as u32, dex128 as i32));
        i += 1;
    }
    Some(es)
}

/// Read the breakdown's entries. On any mismatch, no snapshot with these
/// lengths matches the input.
#[verifier::loop_isolation(false)]
#[verifier::rlimit(100)]
fn decode_breakdown(t: &Vec<Token>, n: usize, p: usize) -> (r: Option<Vec<(i32, i32)>>)
    requires
        14 + 4 * (n as int) + 1 + 2 * (p as int) <= t@.len(),
        tokens_view(t@)[13] == TokenModel::Uint(n as u64),
        tokens_view(t@)[14 + 4 * (n as int)] == TokenModel::Uint(p as u64),
    ensures
        match r {
            Some(bd) => {
                let tv = tokens_view(t@);
                &&& bd@.len() == p
                &&& forall|k: int|
                    0 <= k < p as int ==> {
                        &&& tv[14 + 4 * (n as int) + 1 + 2 * k] == TokenModel::Int(
                            (#[trigger] bd@[k]).0 as i128,
                        )
                        &&& tv[14 + 4 * (n as int) + 1 + 2 * k + 1] == TokenModel::Int(
                            bd@[k].1 as i128,
                        )
                    }
            },
            None => forall|m: StateModel| !snapshot_of(tokens_view(t@), m),
        },
{
    let ghost tv = tokens_view(t@);
    let len_t = t.len();
    let base = 14 + 4 * n;
    let mut bd: Vec<(i32, i32)> = Vec::new();
    let mut j: usize = 0;
    while j < p
        invariant
            j <= p,
            bd@.len() == j,
            base == 14 + 4 * (n as int),
            forall|k: int|
                0 <= k < j ==> {
                    &&& tv[base + 1 + 2 * k] == TokenModel::Int((#[trigger] bd@[k]).0 as i128)
                    &&& tv[base + 1 + 2 * k + 1] == TokenModel::Int(bd@[k].1 as i128)
                },
        decreases p - j,
    {
        proof {
            assert forall|m: StateModel| snapshot_of(tv, m) implies {
                &&& m.entities.len() == n as int
                &&& m.dice_breakdown.len() == p as int
                &&& tv[base + 1 + 2 * (j as int)] == TokenModel::Int(
                    m.dice_breakdown[j as int].0 as i128,
                )
                &&& tv[base + 1 + 2 * (j as int) + 1] == TokenModel::Int(
                    m.dice_breakdown[j as int].1 as i128,
                )
            } by {
                lemma_state_tokens_facts(m);
                assert(tv[13] == state_tokens(m)[13]);
                assert(tv[14 + 4 * m.entities.len() as int] == state_tokens(m)[14 + 4
                    * m.entities.len() as int]);
                lemma_breakdown_tokens_index(m.dice_breakdown, j as int);
                assert(tv[15 + 4 * m.entities.len() as int + 2 * (j as int)] == state_tokens(
                    m,
                )[15 + 4 * m.entities.len() as int + 2 * (j as int)]);
                assert(tv[15 + 4 * m.entities.len() as int + 2 * (j as int) + 1]
                    == state_tokens(m)[15 + 4 * m.entities.len() as int + 2 * (j as int) + 1]);
            }
        }
        let pos = base + 1 + 2 * j;
        let v0 = match read_i128_at(t, pos) {
            Some(v) => v,
            None => {
                return None;
            },
        };
        let v1 = match read_i128_at(t, pos + 1) {
            Some(v) => v,
            None => {
                return None;
            },
        };
        if v0 < i32::MIN as i128 || v0 > i32::MAX as i128 || v1 < i32::MIN as i128 || v1
            > i32::MAX as i128 {
            return None;
        }
        bd.push((v0 as i32, v1 as i32));
        j += 1;
    }
    Some(bd)
}

/// A sequence whose every position carries the right token is the token
/// form of the state.
#[verifier::rlimit(100)]
proof fn lemma_is_snapshot(tv: Seq<TokenModel>, m: StateModel)
    requires
        m.entities.len() <= usize::MAX,
        m.dice_breakdown.len() <= usize::MAX,
        tv.len() == 15 + 4 * m.entities.len() as int + 2 * m.dice_breakdown.len() as int,
        tv[0] == TokenModel::Flag(m.creating_entity),
        tv[1] == TokenModel::Text(m.new_entity_name),
        tv[2] == TokenModel::Uint(m.new_entity_hp as u64),
        tv[3] == TokenModel::Text(m.new_entity_init),
        tv[4] == TokenModel::Text(m.new_entity_init_mod),
        tv[5] == TokenModel::Flag(m.encounter_started),
        tv[6] == TokenModel::Uint(m.current_entity as u64),
        tv[7] == TokenModel::Uint(m.round as u64),
        tv[8] == TokenModel::Uint(spec_mode_code(m.mode)),
        tv[9] == TokenModel::Uint(spec_dice_code(m.dice_type)),
        tv[10] == TokenModel::Text(m.dice_quantity),
        tv[11] == TokenModel::Text(m.dice_modifier),
        tv[12] == TokenModel::Int(m.dice_roll_total),
        tv[13] == TokenModel::Uint(m.entities.len() as u64),
        forall|k: int|
            0 <= k < m.entities.len() ==> {
                &&& tv[14 + 4 * k] == TokenModel::Uint(
                    (#[trigger] m.entities[k]).init as u64,
                )
                &&& tv[14 + 4 * k + 1] == TokenModel::Int(m.entities[k].dex_mod as i128)
                &&& tv[14 + 4 * k + 2] == TokenModel::Text(m.entities[k].name)
                &&& tv[14 + 4 * k + 3] == TokenModel::Uint(m.entities[k].hp as u64)
            },
        tv[14 + 4 * m.entities.len() as int] == TokenModel::Uint(m.dice_breakdown.len() as u64),
        forall|k: int|
            0 <= k < m.dice_breakdown.len() ==> {
                &&& tv[14 + 4 * m.entities.len() as int + 1 + 2 * k] == TokenModel::Int(
                    (#[trigger] m.dice_breakdown[k]).0 as i128,
                )
                &&& tv[14 + 4 * m.entities.len() as int + 1 + 2 * k + 1] == TokenModel::Int(
                    m.dice_breakdown[k].1 as i128,
                )
            },
    ensures
        snapshot_of(tv, m),
{
    let n = m.entities.len() as int;
    let p = m.dice_breakdown.len() as int;
    lemma_state_tokens_facts(m);
    assert forall|idx: int| 0 <= idx < tv.len() implies tv[idx] == state_tokens(m)[idx] by {
        if idx < 14 {
        } else if idx < 14 + 4 * n {
            let k = (idx - 14) / 4;
            let off = (idx - 14) % 4;
            assert(idx == 14 + 4 * k + off);
            assert(0 <= k < n && 0 <= off < 4);
            lemma_roster_tokens_index(m.entities, k);
            if off == 0 {
                assert(tv[14 + 4 * k] == TokenModel::Uint(m.entities[k].init as u64));
                assert(state_tokens(m)[14 + 4 * k] == roster_tokens(m.entities)[4 * k]);
            } else if off == 1 {
                assert(tv[14 + 4 * k + 1] == TokenModel::Int(m.entities[k].dex_mod as i128));
                assert(state_tokens(m)[14 + 4 * k + 1] == roster_tokens(m.entities)[4 * k + 1]);
            } else if off == 2 {
                assert(tv[14 + 4 * k + 2] == TokenModel::Text(m.entities[k].name));
                assert(state_tokens(m)[14 + 4 * k + 2] == roster_tokens(m.entities)[4 * k + 2]);
            } else {
                assert(tv[14 + 4 * k + 3] == TokenModel::Uint(m.entities[k].hp as u64));
                assert(state_tokens(m)[14 + 4 * k + 3] == roster_tokens(m.entities)[4 * k + 3]);
            }
        } else if idx == 14 + 4 * n {
        } else {
            let k = (idx - 15 - 4 * n) / 2;
            let off = (idx - 15 - 4 * n) % 2;
            assert(idx == 14 + 4 * n + 1 + 2 * k + off);
            assert(0 <= k < p && 0 <= off < 2);
            lemma_breakdown_tokens_index(m.dice_breakdown, k);
            if off == 0 {
                assert(tv[14 + 4 * n + 1 + 2 * k] == TokenModel::Int(
                    m.dice_breakdown[k].0 as i128,
                ));
                assert(state_tokens(m)[15 + 4 * n + 2 * k] == breakdown_tokens(
                    m.dice_breakdown,
                )[2 * k]);
            } else {
                assert(tv[14 + 4 * n + 1 + 2 * k + 1] == TokenModel::Int(
                    m.dice_breakdown[k].1 as i128,
                ));
                assert(state_tokens(m)[15 + 4 * n + 2 * k + 1] == breakdown_tokens(
                    m.dice_breakdown,
                )[2 * k + 1]);
            }
        }
    }
    assert(tv =~= state_tokens(m));
}

/// Deserialize a snapshot. Any token sequence that is the token form of a
/// state decodes to exactly that state, so a serialized snapshot comes back
/// field for field identical.
#[verifier::loop_isolation(false)]
#[verifier::rlimit(100)]
pub fn decode_state(t: &Vec<Token>) -> (r: Option<TemplateApp>)
    ensures
        forall|m: StateModel| #![trigger snapshot_of(tokens_view(t@), m)]
            snapshot_of(tokens_view(t@), m) ==> (r matches Some(st) && st@ =~= m),
        r matches Some(st) ==> snapshot_of(tokens_view(t@), st@),
{
    let ghost tv = tokens_view(t@);
    let len_t = t.len();
    if len_t < 15 {
        proof {
            assert forall|m: StateModel| !snapshot_of(tv, m) by {
                if snapshot_of(tv, m) {
                    lemma_state_tokens_facts(m);
                }
            }
        }
        return None;
    }
    let h = match decode_header(t) {
        Some(h) => h,
        None => {
            return None;
        },
    };
    let n = h.n;
    let base = 14 + 4 * n;
    let p64 = match read_u64_at(t, base) {
        Some(v) => v,
        None => {
            proof {
                assert forall|m: StateModel| !snapshot_of(tv, m) by {
                    if snapshot_of(tv, m) {
                        lemma_state_tokens_facts(m);
                        assert(tv[13] == state_tokens(m)[13]);
                        assert(m.entities.len() == n as int);
                        assert(tv[14 + 4 * m.entities.len() as int] == state_tokens(m)[14 + 4
                            * m.entities.len() as int]);
                    }
                }
            }
            return None;
        },
    };
    if p64 > ((len_t - base - 1) / 2) as u64 || len_t - base - 1 != 2 * (p64 as usize) {
        proof {
            assert forall|m: StateModel| !snapshot_of(tv, m) by {
                if snapshot_of(tv, m) {
                    lemma_state_tokens_facts(m);
                    assert(tv[13] == state_tokens(m)[13]);
                    assert(m.entities.len() == n as int);
                    assert(tv[14 + 4 * m.entities.len() as int] == state_tokens(m)[14 + 4
                        * m.entities.len() as int]);
                    assert(m.dice_breakdown.len() as u64 == p64);
                }
            }
        }
        return None;
    }
    let p = p64 as usize;
    let es = match decode_entities(t, n) {
        Some(es) => es,
        None => {
            return None;
        },
    };
    let bd = match decode_breakdown(t, n, p) {
        Some(bd) => bd,
        None => {
            return None;
        },
    };
    let app = TemplateApp::from_parts(
        es,
        h.creating,
        h.draft_name,
        h.draft_hp,
        h.draft_init,
        h.draft_init_mod,
        h.started,
        h.current,
        h.round,
        h.mode,
        h.dice_type,
        h.qty_text,
        h.mod_text,
        bd,
        h.total,
    );
    proof {
        assert forall|m: StateModel| snapshot_of(tv, m) implies app@ =~= m by {
            lemma_state_tokens_facts(m);
            assert(tv[0] == state_tokens(m)[0]);
            assert(tv[1] == state_tokens(m)[1]);
            assert(tv[2] == state_tokens(m)[2]);
            assert(tv[3] == state_tokens(m)[3]);
            assert(tv[4] == state_tokens(m)[4]);
            assert(tv[5] == state_tokens(m)[5]);
            assert(tv[6] == state_tokens(m)[6]);
            assert(tv[7] == state_tokens(m)[7]);
            assert(tv[8] == state_tokens(m)[8]);
            assert(tv[9] == state_tokens(m)[9]);
            assert(tv[10] == state_tokens(m)[10]);
            assert(tv[11] == state_tokens(m)[11]);
            assert(tv[12] == state_tokens(m)[12]);
            assert(tv[13] == state_tokens(m)[13]);
            assert(spec_mode_code(app@.mode) == spec_mode_code(m.mode));
            assert(spec_mode_of_code(spec_mode_code(m.mode)) == Some(m.mode));
            assert(spec_mode_of_code(spec_mode_code(app@.mode)) == Some(app@.mode));
            assert(spec_dice_code(app@.dice_type) == spec_dice_code(m.dice_type));
            assert(spec_dice_of_code(spec_dice_code(m.dice_type)) == Some(m.dice_type));
            assert(spec_dice_of_code(spec_dice_code(app@.dice_type)) == Some(app@.dice_type));
            assert(m.entities.len() == n as int);
            assert forall|k: int| 0 <= k < n as int implies app@.entities[k] == m.entities[k] by {
                lemma_roster_tokens_index(m.entities, k);
                assert(tv[14 + 4 * k] == state_tokens(m)[14 + 4 * k]);
                assert(tv[14 + 4 * k + 1] == state_tokens(m)[14 + 4 * k + 1]);
                assert(tv[14 + 4 * k + 2] == state_tokens(m)[14 + 4 * k + 2]);
                assert(tv[14 + 4 * k + 3] == state_tokens(m)[14 + 4 * k + 3]);
                assert(state_tokens(m)[14 + 4 * k] == roster_tokens(m.entities)[4 * k]);
                assert(state_tokens(m)[14 + 4 * k + 1] == roster_tokens(m.entities)[4 * k + 1]);
                assert(state_tokens(m)[14 + 4 * k + 2] == roster_tokens(m.entities)[4 * k + 2]);
                assert(state_tokens(m)[14 + 4 * k + 3] == roster_tokens(m.entities)[4 * k + 3]);
                assert(TokenModel::Uint(es@[k]@.init as u64) == TokenModel::Uint(
                    m.entities[k].init as u64,
                ));
                assert(TokenModel::Int(es@[k]@.dex_mod as i128) == TokenModel::Int(
                    m.entities[k].dex_mod as i128,
                ));
                assert(TokenModel::Text(es@[k]@.name) == TokenModel::Text(m.entities[k].name));
                assert(TokenModel::Uint(es@[k]@.hp as u64) == TokenModel::Uint(
                    m.entities[k].hp as u64,
                ));
                assert(es@[k]@.init == m.entities[k].init);
                assert(es@[k]@.dex_mod == m.entities[k].dex_mod);
                assert(es@[k]@.name == m.entities[k].name);
                assert(es@[k]@.hp == m.entities[k].hp);
                assert(app@.entities[k] == es@[k]@);
                assert(es@[k]@ =~= m.entities[k]);
            }
            assert(app@.entities =~= m.entities);
            assert(tv[14 + 4 * m.entities.len() as int] == state_tokens(m)[14 + 4
                * m.entities.len() as int]);
            assert(m.dice_breakdown.len() == p as int);
            assert forall|k: int| 0 <= k < p as int implies app@.dice_breakdown[k]
                == m.dice_breakdown[k] by {
                lemma_breakdown_tokens_index(m.dice_breakdown, k);
                assert(tv[15 + 4 * m.entities.len() as int + 2 * k] == state_tokens(m)[15 + 4
                    * m.entities.len() as int + 2 * k]);
                assert(tv[15 + 4 * m.entities.len() as int + 2 * k + 1] == state_tokens(m)[15
                    + 4 * m.entities.len() as int + 2 * k + 1]);
                assert(state_tokens(m)[15 + 4 * m.entities.len() as int + 2 * k]
                    == breakdown_tokens(m.dice_breakdown)[2 * k]);
                assert(state_tokens(m)[15 + 4 * m.entities.len() as int + 2 * k + 1]
                    == breakdown_tokens(m.dice_breakdown)[2 * k + 1]);
                assert(tv[14 + 4 * (n as int) + 1 + 2 * k] == tv[15 + 4
                    * m.entities.len() as int + 2 * k]);
                assert(tv[14 + 4 * (n as int) + 1 + 2 * k + 1] == tv[15 + 4
                    * m.entities.len() as int + 2 * k + 1]);
                assert(TokenModel::Int(bd@[k].0 as i128) == TokenModel::Int(
                    m.dice_breakdown[k].0 as i128,
                ));
                assert(TokenModel::Int(bd@[k].1 as i128) == TokenModel::Int(
                    m.dice_breakdown[k].1 as i128,
                ));
                assert(app@.dice_breakdown[k] == bd@[k]);
                assert(bd@[k].0 == m.dice_breakdown[k].0);
                assert(bd@[k].1 == m.dice_breakdown[k].1);
            }
            assert(app@.dice_breakdown =~= m.dice_breakdown);
        }
        assert forall|k: int| 0 <= k < n as int implies {
            &&& tv[14 + 4 * k] == TokenModel::Uint((#[trigger] app@.entities[k]).init as u64)
            &&& tv[14 + 4 * k + 1] == TokenModel::Int(app@.entities[k].dex_mod as i128)
            &&& tv[14 + 4 * k + 2] == TokenModel::Text(app@.entities[k].name)
            &&& tv[14 + 4 * k + 3] == TokenModel::Uint(app@.entities[k].hp as u64)
        } by {
            assert(app@.entities[k] == es@[k]@);
        }
        assert forall|k: int| 0 <= k < p as int implies {
            &&& tv[14 + 4 * (n as int) + 1 + 2 * k] == TokenModel::Int(
                (#[trigger] app@.dice_breakdown[k]).0 as i128,
            )
            &&& tv[14 + 4 * (n as int) + 1 + 2 * k + 1] == TokenModel::Int(
                app@.dice_breakdown[k].1 as i128,
            )
        } by {
            assert(app@.dice_breakdown[k] == bd@[k]);
        }
        lemma_is_snapshot(tv, app@);
        assert(tv =~= state_tokens(app@));
    }
    Some(app)
}

/// Serializing then deserializing gives the state back field for field.
pub fn snapshot_round_trip(app: &TemplateApp) -> (r: TemplateApp)
    ensures
        r@ =~= app@,
{
    let tokens = encode_state(app);
    match decode_state(&tokens) {
        Some(st) => st,
        None => {
            proof {
                assert(snapshot_of(tokens_view(tokens@), app@));
                assert(false);
            }
            TemplateApp::new()
        },
    }
}

} // verus!
