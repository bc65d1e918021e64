//! Entities: lightweight handles made of an identifier and a generation.

use vstd::prelude::*;
use vstd::string::StringExecFns;

verus! {

/// Number of distinct generation values (`u32::MAX + 1`); an entity's key
/// is `id * GENERATION_SPAN + generation`.
pub open spec fn generation_span() -> int {
    0x1_0000_0000
}

/// The integer key of an entity: a bijection between entities and the
/// integers below `2^96`.
pub open spec fn spec_entity_key(id: u64, generation: u32) -> u128 {
    (id * generation_span() + generation) as u128
}

/// Unique identifier for an entity
#[derive(Debug, Clone, Copy, PartialEq, Eq, Hash, Structural)]
pub struct EntityId(u64);

impl EntityId {
    /// The raw value carried by this identifier.
    pub closed spec fn value(self) -> u64 {
        self.0
    }

    /// Create a new EntityId from a raw u64 value
    pub fn new(id: u64) -> (r: Self)
        ensures
            r.value() == id,
    {
        EntityId(id)
    }

    /// Get the raw u64 value
    pub fn raw(&self) -> (r: u64)
        ensures
            r == self.value(),
    {
        self.0
    }

    /// Two identifiers are equal exactly when their raw values are.
    pub broadcast proof fn lemma_id_ext(a: EntityId, b: EntityId)
        ensures
            #![trigger a.value(), b.value()]
            (a.value() == b.value()) <==> (a == b),
    {
    }

    /// Renders the identifier as `Entity(<id>)`.
    pub fn to_display_string(&self) -> (r: String)
        ensures
            r@ == "Entity("@ + decimal(self.value() as nat) + ")"@,
    {
        let mut r = String::from_str("Entity(");
        let digits = decimal_string(self.0);
        r.append(digits.as_str());
        r.append(")");
        r
    }
}

/// Entity handle with generational index support for safe references
#[derive(Debug, Clone, Copy, PartialEq, Eq, Hash, Structural)]
pub struct Entity {
    id: EntityId,
    generation: u32,
}

impl Entity {
    /// The raw identifier of this entity.
    pub closed spec fn spec_id(self) -> u64 {
        self.id.0
    }

    /// The generation of this entity.
    pub closed spec fn spec_generation(self) -> u32 {
        self.generation
    }

    /// The integer key under which storages index this entity.
    pub open spec fn spec_key(self) -> u128 {
        spec_entity_key(self.spec_id(), self.spec_generation())
    }

    /// Two entities are equal exactly when identifier and generation are.
    pub broadcast proof fn lemma_entity_ext(a: Entity, b: Entity)
        ensures
            #![trigger a.spec_id(), b.spec_id(), a.spec_generation(), b.spec_generation()]
            (a.spec_id() == b.spec_id() && a.spec_generation() == b.spec_generation()) <==> (a
                == b),
    {
    }

    /// Distinct entities have distinct keys, and a key determines the
    /// identifier and generation it was made from.
    pub proof fn lemma_key_injective(a: Entity, b: Entity)
        ensures
            (a.spec_key() == b.spec_key()) <==> (a == b),
    {
        lemma_key_parts(a.spec_id(), a.spec_generation());
        lemma_key_parts(b.spec_id(), b.spec_generation());
    }

    /// Create a new entity with the given ID and generation
    pub fn new(id: u64, generation: u32) -> (r: Self)
        ensures
            r.spec_id() == id,
            r.spec_generation() == generation,
    {
        Entity { id: EntityId::new(id), generation }
    }

    /// Get the entity ID
    pub fn id(&self) -> (r: EntityId)
        ensures
            r.value() == self.spec_id(),
    {
        self.id
    }

    /// Get the generation number
    pub fn generation(&self) -> (r: u32)
        ensures
            r == self.spec_generation(),
    {
        self.generation
    }

    /// The key of this entity, `id * 2^32 + generation`.
    pub fn key(&self) -> (r: u128)
        ensures
            r == self.spec_key(),
    {
        proof {
            lemma_key_parts(self.spec_id(), self.spec_generation());
        }
        (self.id.0 as u128) * 0x1_0000_0000u128 + (self.generation as u128)
    }

    /// The entity whose key is `key`; defined on keys below `2^96`.
    pub fn from_key(key: u128) -> (r: Self)
        requires
            key < 0x1_0000_0000_0000_0000_0000_0000u128,
        ensures
            r.spec_key() == key,
    {
        let id = key / 0x1_0000_0000u128;
        let generation = key % 0x1_0000_0000u128;
        assert(id < 0x1_0000_0000_0000_0000u128) by (nonlinear_arith)
            requires
                key < 0x1_0000_0000_0000_0000_0000_0000u128,
                id == key / 0x1_0000_0000u128,
        ;
        proof {
            lemma_key_parts(id as u64, generation as u32);
        }
        Entity { id: EntityId(id as u64), generation: generation as u32 }
    }

    /// Renders the entity as `Entity(<id>, gen: <generation>)`.
    pub fn to_display_string(&self) -> (r: String)
        ensures
            r@ == "Entity("@ + decimal(self.spec_id() as nat) + ", gen: "@ + decimal(
                self.spec_generation() as nat,
            ) + ")"@,
    {
        let mut r = String::from_str("Entity(");
        let id_digits = decimal_string(self.id.0);
        r.append(id_digits.as_str());
        r.append(", gen: ");
        let gen_digits = decimal_string(self.generation as u64);
        r.append(gen_digits.as_str());
        r.append(")");
        r
    }
}

/// The key of an identifier and generation lies below `2^96`, and the
/// identifier and generation are its quotient and remainder by `2^32`.
pub proof fn lemma_key_parts(id: u64, generation: u32)
    ensures
        spec_entity_key(id, generation) == id * generation_span() + generation,
        0 <= id * generation_span() + generation < 0x1_0000_0000_0000_0000_0000_0000,
        (id * generation_span() + generation) / generation_span() == id,
        (id * generation_span() + generation) % generation_span() == generation,
{
    assert(0 <= id * generation_span() + generation < 0x1_0000_0000_0000_0000_0000_0000)
        by (nonlinear_arith)
        requires
            0 <= id < 0x1_0000_0000_0000_0000,
            0 <= generation < 0x1_0000_0000,
            generation_span() == 0x1_0000_0000,
    ;
    vstd::arithmetic::div_mod::lemma_fundamental_div_mod_converse(
        id * generation_span() + generation,
        generation_span(),
        id as int,
        generation as int,
    );
}

/// The decimal digit for `d` (below ten).
pub open spec fn decimal_digit(d: nat) -> char {
    (48 + d) as char
}

/// The decimal representation of `n`: its digits, most significant first,
/// with no leading zeros (`"0"` for zero).
pub open spec fn decimal(n: nat) -> Seq<char>
    decreases n,
{
    if n < 10 {
        seq![decimal_digit(n)]
    } else {
        decimal(n / 10).push(decimal_digit(n % 10))
    }
}

/// The one-character text of the decimal digit `d`.
fn digit_str(d: u64) -> (r: &'static str)
    requires
        d < 10,
    ensures
        r@ == seq![decimal_digit(d as nat)],
{
    proof {
        reveal_strlit("0");
        reveal_strlit("1");
        reveal_strlit("2");
        reveal_strlit("3");
        reveal_strlit("4");
        reveal_strlit("5");
        reveal_strlit("6");
        reveal_strlit("7");
        reveal_strlit("8");
        reveal_strlit("9");
    }
    match d {
        0 => "0",
        1 => "1",
        2 => "2",
        3 => "3",
        4 => "4",
        5 => "5",
        6 => "6",
        7 => "7",
        8 => "8",
        _ => "9",
    }
}

/// The decimal representation of `n`, as `Display` writes an unsigned
/// integer.
pub fn decimal_string(n: u64) -> (r: String)
    ensures
        r@ == decimal(n as nat),
    decreases n,
{
    if n < 10 {
        String::from_str(digit_str(n))
    } else {
        let mut r = decimal_string(n / 10);
        r.append(digit_str(n % 10));
        r
    }
}

} // verus!
