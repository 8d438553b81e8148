use vstd::prelude::*;
use vstd::utf8::*;

verus! {

/// Size in bytes of one serialized record.
pub const RECORD_SIZE: usize = 300;

/// Exclusive bound on the byte length of a name.
pub const NAME_LIMIT: usize = 32;

/// Exclusive bound on the byte length of a description.
pub const DESCRIPTION_LIMIT: usize = 255;

/// Offset of the little-endian identifier inside a record.
pub const ID_OFFSET: usize = 2;

/// Offset of the name bytes inside a record.
pub const NAME_OFFSET: usize = 10;

/// Offset of the description bytes inside a record.
pub const DESCRIPTION_OFFSET: usize = 42;

/// Why an entity could not be constructed.
#[derive(Debug, Clone, Copy, PartialEq, Eq, Structural)]
pub enum ValidationError {
    ZeroId,
    NameTooLong,
    DescriptionTooLong,
}

/// The logical content of an entity: identifier, name and description.
pub type EntityModel = (u64, Seq<char>, Seq<char>);

/// The first rule that `(id, name, description)` breaks, if any.
pub open spec fn validation(id: u64, name: Seq<char>, description: Seq<char>) -> Option<
    ValidationError,
> {
    if id == 0 {
        Some(ValidationError::ZeroId)
    } else if encode_utf8(name).len() >= NAME_LIMIT {
        Some(ValidationError::NameTooLong)
    } else if encode_utf8(description).len() >= DESCRIPTION_LIMIT {
        Some(ValidationError::DescriptionTooLong)
    } else {
        None
    }
}

/// `e` breaks no validation rule.
pub open spec fn valid_model(e: EntityModel) -> bool {
    validation(e.0, e.1, e.2) is None
}

/// Why a byte buffer could not be read back as an entity.
#[derive(Debug, Clone, Copy, PartialEq, Eq, Structural)]
pub enum DecodeError {
    /// The buffer is not exactly one record long.
    WrongLength,
    /// The record holds an entity that breaks a validation rule.
    Invalid(ValidationError),
}

/// Byte `k` (0 = least significant) of `x`.
pub open spec fn le_byte(x: u64, k: int) -> u8 {
    ((x >> ((8 * k) as u64)) & 0xffu64) as u8
}

/// The integer whose little-endian bytes are `b[0..8]`.
pub open spec fn le_u64(b: Seq<u8>) -> u64 {
    (b[0] as u64) | ((b[1] as u64) << 8u64) | ((b[2] as u64) << 16u64) | ((b[3] as u64) << 24u64)
        | ((b[4] as u64) << 32u64) | ((b[5] as u64) << 40u64) | ((b[6] as u64) << 48u64) | ((
    b[7] as u64) << 56u64)
}

/// The record layout: two length bytes, the identifier in little-endian order, then the
/// zero-padded name and description bytes; every other byte is zero.
pub open spec fn encode_record(id: u64, name: Seq<u8>, description: Seq<u8>) -> Seq<u8> {
    Seq::new(
        RECORD_SIZE as nat,
        |i: int|
            if i == 0 {
                name.len() as u8
            } else if i == 1 {
                description.len() as u8
            } else if i < NAME_OFFSET {
                le_byte(id, i - ID_OFFSET)
            } else if i < NAME_OFFSET + name.len() {
                name[i - NAME_OFFSET]
            } else if DESCRIPTION_OFFSET <= i < DESCRIPTION_OFFSET + description.len() {
                description[i - DESCRIPTION_OFFSET]
            } else {
                0u8
            },
    )
}

/// The record of an entity.
pub open spec fn encode_model(e: EntityModel) -> Seq<u8> {
    encode_record(e.0, encode_utf8(e.1), encode_utf8(e.2))
}

/// The text held by `b`, or the empty text when `b` is not valid UTF-8.
pub open spec fn text_or_empty(b: Seq<u8>) -> Seq<char> {
    if valid_utf8(b) {
        decode_utf8(b)
    } else {
        Seq::empty()
    }
}

/// `b` is one record long and its name or description bytes are not valid UTF-8.
pub open spec fn text_lost(b: Seq<u8>) -> bool {
    &&& b.len() == RECORD_SIZE
    &&& {
        ||| !valid_utf8(b.subrange(NAME_OFFSET as int, NAME_OFFSET + b[0]))
        ||| !valid_utf8(b.subrange(DESCRIPTION_OFFSET as int, DESCRIPTION_OFFSET + b[1]))
    }
}

/// What reading `b` back as a record gives.
pub open spec fn decode_record(b: Seq<u8>) -> Result<EntityModel, DecodeError> {
    if b.len() != RECORD_SIZE {
        Err(DecodeError::WrongLength)
    } else {
        let id = le_u64(b.subrange(ID_OFFSET as int, NAME_OFFSET as int));
        let name = text_or_empty(b.subrange(NAME_OFFSET as int, NAME_OFFSET + b[0]));
        let description = text_or_empty(
            b.subrange(DESCRIPTION_OFFSET as int, DESCRIPTION_OFFSET + b[1]),
        );
        match validation(id, name, description) {
            Some(e) => Err(DecodeError::Invalid(e)),
            None => Ok((id, name, description)),
        }
    }
}

/// Reading the bytes of `x` back, least significant first, gives `x`.
pub proof fn lemma_le_round_trip(x: u64)
    ensures
        le_u64(Seq::new(8, |k: int| le_byte(x, k))) == x,
{
    let b = Seq::new(8, |k: int| le_byte(x, k));
    assert(b[0] == ((x >> 0u64) & 0xffu64) as u8);
    assert(b[1] == ((x >> 8u64) & 0xffu64) as u8);
    assert(b[2] == ((x >> 16u64) & 0xffu64) as u8);
    assert(b[3] == ((x >> 24u64) & 0xffu64) as u8);
    assert(b[4] == ((x >> 32u64) & 0xffu64) as u8);
    assert(b[5] == ((x >> 40u64) & 0xffu64) as u8);
    assert(b[6] == ((x >> 48u64) & 0xffu64) as u8);
    assert(b[7] == ((x >> 56u64) & 0xffu64) as u8);
    assert(((((x >> 0u64) & 0xffu64) as u8) as u64) | (((((x >> 8u64) & 0xffu64) as u8) as u64)
        << 8u64) | (((((x >> 16u64) & 0xffu64) as u8) as u64) << 16u64) | (((((x >> 24u64)
        & 0xffu64) as u8) as u64) << 24u64) | (((((x >> 32u64) & 0xffu64) as u8) as u64)
        << 32u64) | (((((x >> 40u64) & 0xffu64) as u8) as u64) << 40u64) | (((((x >> 48u64)
        & 0xffu64) as u8) as u64) << 48u64) | (((((x >> 56u64) & 0xffu64) as u8) as u64)
        << 56u64) == x) by (bit_vector);
}

/// Decoding the encoding of a valid entity gives the entity back.
pub proof fn lemma_round_trip(e: EntityModel)
    requires
        valid_model(e),
    ensures
        decode_record(encode_model(e)) == Ok::<EntityModel, DecodeError>(e),
{
    broadcast use group_utf8_lib;

    let b = encode_model(e);
    let name = encode_utf8(e.1);
    let description = encode_utf8(e.2);
    lemma_le_round_trip(e.0);
    assert(b.subrange(ID_OFFSET as int, NAME_OFFSET as int) =~= Seq::new(
        8,
        |k: int| le_byte(e.0, k),
    ));
    assert(b[0] as int == name.len());
    assert(b[1] as int == description.len());
    assert(b.subrange(NAME_OFFSET as int, NAME_OFFSET + b[0]) =~= name);
    assert(b.subrange(DESCRIPTION_OFFSET as int, DESCRIPTION_OFFSET + b[1]) =~= description);
}

/// A record of the store: a non-zero identifier, a short name and a description.
#[derive(Debug)]
pub struct Entity {
    id: u64,
    user_name: String,
    description: String,
}

impl View for Entity {
    type V = EntityModel;

    closed spec fn view(&self) -> EntityModel {
        (self.id, self.user_name@, self.description@)
    }
}

impl Entity {
    #[verifier::type_invariant]
    closed spec fn inv(&self) -> bool {
        valid_model(self@)
    }

    /// Builds an entity, refusing a zero identifier and over-long fields.
    pub fn new(id: u64, user_name: String, description: String) -> (r: Result<
        Entity,
        ValidationError,
    >)
        ensures
            match validation(id, user_name@, description@) {
                Some(e) => r == Err::<Entity, ValidationError>(e),
                None => r is Ok && r->Ok_0@ == (id, user_name@, description@),
            },
    {
        if id == 0 {
            return Err(ValidationError::ZeroId);
        }
        if user_name.as_str().as_bytes().len() >= NAME_LIMIT {
            return Err(ValidationError::NameTooLong);
        }
        if description.as_str().as_bytes().len() >= DESCRIPTION_LIMIT {
            return Err(ValidationError::DescriptionTooLong);
        }
        Ok(Entity { id, user_name, description })
    }

    pub fn id(&self) -> (r: u64)
        ensures
            r == self@.0,
    {
        self.id
    }

    pub fn user_name(&self) -> (r: &str)
        ensures
            r@ == self@.1,
    {
        self.user_name.as_str()
    }

    pub fn description(&self) -> (r: &str)
        ensures
            r@ == self@.2,
    {
        self.description.as_str()
    }

    /// The 300-byte record of this entity.
    pub fn serialize(&self) -> (r: Vec<u8>)
        ensures
            r@ == encode_model(self@),
            valid_model(self@),
    {
        proof {
            use_type_invariant(self);
        }
        let name = self.user_name.as_str().as_bytes();
        let description = self.description.as_str().as_bytes();
        let ghost target = encode_model(self@);
        let mut result: Vec<u8> = Vec::new();
        while result.len() < RECORD_SIZE
            invariant
                result.len() <= RECORD_SIZE,
                forall|i: int| 0 <= i < result.len() ==> result@[i] == 0u8,
            decreases RECORD_SIZE - result.len(),
        {
            result.push(0u8);
        }
        result.set(0, name.len() as u8);
        result.set(1, description.len() as u8);
        let mut k: usize = 0;
        while k < 8
            invariant
                k <= 8,
                result.len() == RECORD_SIZE,
                target == encode_model(self@),
                name@ == encode_utf8(self@.1),
                description@ == encode_utf8(self@.2),
                forall|i: int|
                    0 <= i < RECORD_SIZE ==> result@[i] == if i < ID_OFFSET + k {
                        target[i]
                    } else {
                        0u8
                    },
            decreases 8 - k,
        {
            result.set(ID_OFFSET + k, ((self.id >> (8 * k as u64)) & 0xff) as u8);
            k = k + 1;
        }
        let mut j: usize = 0;
        while j < name.len()
            invariant
                j <= name.len(),
                name.len() < NAME_LIMIT,
                result.len() == RECORD_SIZE,
                target == encode_model(self@),
                name@ == encode_utf8(self@.1),
                description@ == encode_utf8(self@.2),
                forall|i: int|
                    0 <= i < RECORD_SIZE ==> result@[i] == if i < NAME_OFFSET + j {
                        target[i]
                    } else {
                        0u8
                    },
            decreases name.len() - j,
        {
            result.set(NAME_OFFSET + j, name[j]);
            j = j + 1;
        }
        let mut j: usize = 0;
        while j < description.len()
            invariant
                j <= description.len(),
                name.len() < NAME_LIMIT,
                description.len() < DESCRIPTION_LIMIT,
                result.len() == RECORD_SIZE,
                target == encode_model(self@),
                name@ == encode_utf8(self@.1),
                description@ == encode_utf8(self@.2),
                forall|i: int|
                    0 <= i < RECORD_SIZE ==> result@[i] == if i < DESCRIPTION_OFFSET + j {
                        target[i]
                    } else {
                        0u8
                    },
            decreases description.len() - j,
        {
            result.set(DESCRIPTION_OFFSET + j, description[j]);
            j = j + 1;
        }
        assert(result@ =~= target);
        result
    }

    /// Reads an entity back from its 300-byte record. A field whose bytes are not valid
    /// UTF-8 is read as the empty text.
    pub fn deserialize(entity_bytes: &Vec<u8>) -> (r: Result<Entity, DecodeError>)
        ensures
            match decode_record(entity_bytes@) {
                Ok(m) => r is Ok && r->Ok_0@ == m,
                Err(e) => r == Err::<Entity, DecodeError>(e),
            },
    {
        Self::deserialize_reporting(entity_bytes).0
    }

    /// As `deserialize`, and also tells whether a field's bytes were not valid UTF-8 and
    /// were read as the empty text.
    pub fn deserialize_reporting(entity_bytes: &Vec<u8>) -> (r: (Result<Entity, DecodeError>, bool))
        ensures
            match decode_record(entity_bytes@) {
                Ok(m) => r.0 is Ok && r.0->Ok_0@ == m,
                Err(e) => r.0 == Err::<Entity, DecodeError>(e),
            },
            r.1 == text_lost(entity_bytes@),
    {
        if entity_bytes.len() != RECORD_SIZE {
            return (Err(DecodeError::WrongLength), false);
        }
        let b = entity_bytes;
        let name_len = b[0] as usize;
        let desc_len = b[1] as usize;
        let id: u64 = (b[2] as u64) | ((b[3] as u64) << 8u64) | ((b[4] as u64) << 16u64) | ((
        b[5] as u64) << 24u64) | ((b[6] as u64) << 32u64) | ((b[7] as u64) << 40u64) | ((
        b[8] as u64) << 48u64) | ((b[9] as u64) << 56u64);
        assert(id == le_u64(b@.subrange(ID_OFFSET as int, NAME_OFFSET as int)));
        let (user_name, name_lost) = Self::get_str(b, NAME_OFFSET, name_len);
        let (description, description_lost) = Self::get_str(b, DESCRIPTION_OFFSET, desc_len);
        let lost = name_lost || description_lost;
        match Entity::new(id, user_name, description) {
            Ok(e) => (Ok(e), lost),
            Err(e) => (Err(DecodeError::Invalid(e)), lost),
        }
    }

    /// The text held by `entity_bytes[offset..offset + len]`, or the empty text; and
    /// whether those bytes were not valid UTF-8.
    fn get_str(entity_bytes: &Vec<u8>, offset: usize, len: usize) -> (r: (String, bool))
        requires
            offset + len <= entity_bytes.len(),
        ensures
            r.0@ == text_or_empty(entity_bytes@.subrange(offset as int, offset + len)),
            r.1 == !valid_utf8(entity_bytes@.subrange(offset as int, offset + len)),
    {
        let mut bytes: Vec<u8> = Vec::new();
        let mut j: usize = 0;
        while j < len
            invariant
                j <= len,
                offset + len <= entity_bytes.len(),
                bytes@ == entity_bytes@.subrange(offset as int, offset + j),
            decreases len - j,
        {
            bytes.push(entity_bytes[offset + j]);
            j = j + 1;
            assert(bytes@ =~= entity_bytes@.subrange(offset as int, offset + j));
        }
        match utf8_to_string(bytes) {
            Some(s) => (s, false),
            None => (String::new(), true),
        }
    }
}

/// Relies on `String::from_utf8`: it succeeds exactly on valid UTF-8, and the
/// string then holds the characters that the bytes encode.
#[verifier::external_body]
fn utf8_to_string(bytes: Vec<u8>) -> (r: Option<String>)
    ensures
        r is Some <==> valid_utf8(bytes@),
        r is Some ==> r->0@ == decode_utf8(bytes@),
{
    String::from_utf8(bytes).ok()
}

} // verus!
