use vstd::prelude::*;

use crate::condition::Condition;
use crate::errors::NewFactError;
use crate::errors::ParseConditionError;
use crate::fact::FactId;
use crate::value::Value;

verus! {

/// A name-to-identifier index backed by hashbrown's hash map. Verified code
/// sees it only through `index_map` and the three wrappers below.
#[verifier::external_body]
pub struct NameIndex {
    map: hashbrown::HashMap<String, u16>,
}

/// What the index holds: the identifier filed under each fact name.
pub uninterp spec fn index_map(m: &NameIndex) -> Map<Seq<char>, u16>;

/// Relies on hashbrown::HashMap::get (with str keys borrowed from the stored
/// Strings): the value filed under the key, when there is one.
#[verifier::external_body]
fn index_get(m: &NameIndex, name: &str) -> (r: Option<u16>)
    ensures
        (r matches Some(id) ==> index_map(m).contains_key(name@) && index_map(m)[name@] == id),
        (r is None ==> !index_map(m).contains_key(name@)),
{
    m.map.get(name).copied()
}

/// Relies on hashbrown::HashMap::new for construction alone; nothing is
/// assumed of the fresh index, `index_clear` below establishes emptiness.
#[verifier::external_body]
fn index_new_unspecified() -> NameIndex {
    NameIndex { map: hashbrown::HashMap::new() }
}

/// The empty name-to-identifier map.
pub open spec fn empty_index() -> Map<Seq<char>, u16> {
    Map::empty()
}

/// Relies on hashbrown::HashMap::clear: afterwards the index holds nothing.
#[verifier::external_body]
fn index_clear(m: &mut NameIndex)
    ensures
        index_map(final(m)) == empty_index(),
{
    m.map.clear();
}

/// Relies on hashbrown::HashMap::insert: afterwards the key is filed under
/// the value and every other entry is unchanged.
#[verifier::external_body]
fn index_insert(m: &mut NameIndex, name: &str, id: u16)
    ensures
        index_map(final(m)) == index_map(old(m)).insert(name@, id),
{
    m.map.insert(String::from(name), id);
}

/// An ASCII decimal digit.
pub open spec fn is_ascii_digit_char(c: char) -> bool {
    48 <= c as u32 <= 57
}

/// An ASCII whitespace character.
pub open spec fn is_ascii_ws_char(c: char) -> bool {
    c == ' ' || c == '\t' || c == '\n' || c == '\u{c}' || c == '\r'
}

/// A fact name the registry accepts: non-empty, no leading digit, no ASCII
/// whitespace anywhere.
pub open spec fn valid_fact_name(name: Seq<char>) -> bool {
    &&& name.len() > 0
    &&& !is_ascii_digit_char(name[0])
    &&& forall|i: int| 0 <= i < name.len() ==> !is_ascii_ws_char(#[trigger] name[i])
}

/// `n` is the name registered under identifier `i`.
pub open spec fn name_at(names: Seq<Seq<char>>, n: Seq<char>, i: int) -> bool {
    0 <= i < names.len() && names[i] == n
}

/// `n` is registered under some identifier.
pub open spec fn name_in(names: Seq<Seq<char>>, n: Seq<char>) -> bool {
    exists|i: int| name_at(names, n, i)
}

/// What registering `name` against the already-registered `names` yields:
/// the checks run in this order, and a name that passes them all receives
/// the next free identifier.
pub open spec fn new_fact_outcome(names: Seq<Seq<char>>, name: Seq<char>) -> Result<
    FactId,
    NewFactError,
> {
    if name.len() == 0 {
        Err(NewFactError::EmptyFactName)
    } else if is_ascii_digit_char(name[0]) {
        Err(NewFactError::InitialDigitFactName)
    } else if exists|i: int| 0 <= i < name.len() && is_ascii_ws_char(#[trigger] name[i]) {
        Err(NewFactError::ContainsAsciiWhitespaceFactName)
    } else if name_in(names, name) {
        Err(NewFactError::DuplicateFactName)
    } else if names.len() > u16::MAX {
        Err(NewFactError::OutOfFactIdSpace)
    } else {
        Ok(FactId(names.len() as u16))
    }
}

/// The integer denoted by a run of ASCII digits, most significant first.
pub open spec fn digits_val(s: Seq<char>) -> int
    decreases s.len(),
{
    if s.len() == 0 {
        0
    } else {
        digits_val(s.drop_last()) * 10 + (s.last() as u32 - 48)
    }
}

/// Every character is an ASCII digit.
pub open spec fn all_ascii_digits(s: Seq<char>) -> bool {
    forall|i: int| 0 <= i < s.len() ==> is_ascii_digit_char(#[trigger] s[i])
}

/// The integer a string denotes: an optional leading `+` or `-` followed by
/// one or more ASCII digits, provided the value fits the machine type;
/// anything else denotes nothing.
pub open spec fn parse_i64_spec(s: Seq<char>) -> Option<i64> {
    let signed = s.len() > 0 && (s[0] == '+' || s[0] == '-');
    let body = if signed {
        s.skip(1)
    } else {
        s
    };
    if body.len() == 0 || !all_ascii_digits(body) {
        None
    } else {
        let v = if s[0] == '-' {
            -digits_val(body)
        } else {
            digits_val(body)
        };
        if i64::MIN <= v <= i64::MAX {
            Some(v as i64)
        } else {
            None
        }
    }
}

/// Relies on str::parse::<i64> (core's `FromStr` for the machine integer):
/// it accepts an optional leading sign followed by one or more ASCII digits
/// and returns the denoted value exactly when it fits the type.
#[verifier::external_body]
fn parse_i64(s: &str) -> (r: Option<i64>)
    ensures
        r == parse_i64_spec(s@),
{
    s.parse::<i64>().ok()
}

/// The first position at or after `i` holding a non-whitespace character, or
/// the end of the string.
pub open spec fn skip_ws_spec(s: Seq<char>, i: int) -> int
    decreases s.len() - i when 0 <= i <= s.len()
{
    if i >= s.len() {
        s.len() as int
    } else if is_ascii_ws_char(s[i]) {
        skip_ws_spec(s, i + 1)
    } else {
        i
    }
}

/// The first position at or after `i` holding a whitespace character, or the
/// end of the string.
pub open spec fn scan_token_spec(s: Seq<char>, i: int) -> int
    decreases s.len() - i when 0 <= i <= s.len()
{
    if i >= s.len() {
        s.len() as int
    } else if !is_ascii_ws_char(s[i]) {
        scan_token_spec(s, i + 1)
    } else {
        i
    }
}

proof fn lemma_skip_ws_bounds(s: Seq<char>, i: int)
    requires
        0 <= i <= s.len(),
    ensures
        i <= skip_ws_spec(s, i) <= s.len(),
        skip_ws_spec(s, i) < s.len() ==> !is_ascii_ws_char(s[skip_ws_spec(s, i)]),
    decreases s.len() - i,
{
    if i < s.len() && is_ascii_ws_char(s[i]) {
        lemma_skip_ws_bounds(s, i + 1);
    }
}

proof fn lemma_scan_token_bounds(s: Seq<char>, i: int)
    requires
        0 <= i <= s.len(),
    ensures
        i <= scan_token_spec(s, i) <= s.len(),
        i < s.len() && !is_ascii_ws_char(s[i]) ==> scan_token_spec(s, i) > i,
    decreases s.len() - i,
{
    if i < s.len() && !is_ascii_ws_char(s[i]) {
        lemma_scan_token_bounds(s, i + 1);
    }
}

/// The whitespace-separated fields of `s` from position `i` on, each as its
/// start (inclusive) and end (exclusive) position.
pub open spec fn fields_from(s: Seq<char>, i: int) -> Seq<(int, int)>
    decreases s.len() - i when 0 <= i <= s.len() via fields_from_decreases
{
    let a = skip_ws_spec(s, i);
    if a >= s.len() {
        Seq::empty()
    } else {
        let b = scan_token_spec(s, a);
        seq![(a, b)] + fields_from(s, b)
    }
}

#[via_fn]
proof fn fields_from_decreases(s: Seq<char>, i: int) {
    lemma_skip_ws_bounds(s, i);
    let a = skip_ws_spec(s, i);
    if a < s.len() {
        lemma_scan_token_bounds(s, a);
    }
}

/// `v` is what the value string `sv` denotes against the registered names:
/// an integer when it parses as one, a reference when it instead is a
/// registered name, the error sentinel when it is neither.
pub open spec fn value_for(names: Seq<Seq<char>>, sv: Seq<char>, v: Value) -> bool {
    match v {
        Value::Int(n) => parse_i64_spec(sv) == Some(n),
        Value::Ref(f) => parse_i64_spec(sv) is None && name_at(names, sv, f.0 as int),
        Value::Error => parse_i64_spec(sv) is None && !name_in(names, sv),
    }
}

pub open spec fn op_eq(op: Seq<char>) -> bool {
    op.len() == 2 && op[0] == '=' && op[1] == '='
}

pub open spec fn op_ne(op: Seq<char>) -> bool {
    op.len() == 2 && op[0] == '!' && op[1] == '='
}

pub open spec fn op_gt(op: Seq<char>) -> bool {
    op.len() == 1 && op[0] == '>'
}

pub open spec fn op_lt(op: Seq<char>) -> bool {
    op.len() == 1 && op[0] == '<'
}

pub open spec fn op_ge(op: Seq<char>) -> bool {
    op.len() == 2 && op[0] == '>' && op[1] == '='
}

pub open spec fn op_le(op: Seq<char>) -> bool {
    op.len() == 2 && op[0] == '<' && op[1] == '='
}

/// The middle field is one of the six relational operators.
pub open spec fn known_op(op: Seq<char>) -> bool {
    op_eq(op) || op_ne(op) || op_gt(op) || op_lt(op) || op_ge(op) || op_le(op)
}

/// `c` is the condition the three fields denote: the operator picks the
/// variant, the left field names the condition's fact, and the right field
/// denotes its value.
pub open spec fn condition_for(
    names: Seq<Seq<char>>,
    lhs: Seq<char>,
    op: Seq<char>,
    rhs: Seq<char>,
    c: Condition,
) -> bool {
    match c {
        Condition::Eq(f, v) => op_eq(op) && name_at(names, lhs, f.0 as int) && value_for(
            names,
            rhs,
            v,
        ),
        Condition::Ne(f, v) => op_ne(op) && name_at(names, lhs, f.0 as int) && value_for(
            names,
            rhs,
            v,
        ),
        Condition::Gt(f, v) => op_gt(op) && name_at(names, lhs, f.0 as int) && value_for(
            names,
            rhs,
            v,
        ),
        Condition::Lt(f, v) => op_lt(op) && name_at(names, lhs, f.0 as int) && value_for(
            names,
            rhs,
            v,
        ),
        Condition::Ge(f, v) => op_ge(op) && name_at(names, lhs, f.0 as int) && value_for(
            names,
            rhs,
            v,
        ),
        Condition::Le(f, v) => op_le(op) && name_at(names, lhs, f.0 as int) && value_for(
            names,
            rhs,
            v,
        ),
    }
}

/// What parsing a condition string yields, given the three fields: the
/// checks run in this order.
pub open spec fn parse_condition_outcome(
    names: Seq<Seq<char>>,
    s: Seq<char>,
    r: Result<Condition, ParseConditionError>,
) -> bool {
    let fs = fields_from(s, 0);
    if fs.len() != 3 {
        r == Err::<Condition, ParseConditionError>(ParseConditionError::WrongFieldCount)
    } else {
        let lhs = s.subrange(fs[0].0, fs[0].1);
        let op = s.subrange(fs[1].0, fs[1].1);
        let rhs = s.subrange(fs[2].0, fs[2].1);
        if !name_in(names, lhs) {
            r == Err::<Condition, ParseConditionError>(ParseConditionError::LhsNotAFactId)
        } else if parse_i64_spec(rhs) is None && !name_in(names, rhs) {
            r == Err::<Condition, ParseConditionError>(ParseConditionError::RhsNotAFactNameOrId)
        } else if !known_op(op) {
            r == Err::<Condition, ParseConditionError>(ParseConditionError::UnrecognizedOperator)
        } else {
            r matches Ok(c) && condition_for(names, lhs, op, rhs, c)
        }
    }
}

/// The first position at or after `i` holding a non-whitespace character.
fn skip_ws(s: &str, i: usize) -> (r: usize)
    requires
        i <= s@.len(),
    ensures
        r == skip_ws_spec(s@, i as int),
{
    let n = s.unicode_len();
    let mut j = i;
    while j < n
        invariant
            i <= j <= n == s@.len(),
            skip_ws_spec(s@, i as int) == skip_ws_spec(s@, j as int),
        decreases n - j,
    {
        let c = s.get_char(j);
        if !(c == ' ' || c == '\t' || c == '\n' || c == '\u{c}' || c == '\r') {
            return j;
        }
        j = j + 1;
    }
    n
}

/// The first position at or after `i` holding a whitespace character.
fn scan_token(s: &str, i: usize) -> (r: usize)
    requires
        i <= s@.len(),
    ensures
        r == scan_token_spec(s@, i as int),
{
    let n = s.unicode_len();
    let mut j = i;
    while j < n
        invariant
            i <= j <= n == s@.len(),
            scan_token_spec(s@, i as int) == scan_token_spec(s@, j as int),
        decreases n - j,
    {
        let c = s.get_char(j);
        if c == ' ' || c == '\t' || c == '\n' || c == '\u{c}' || c == '\r' {
            return j;
        }
        j = j + 1;
    }
    n
}

/// The registry that allocates stable fact identifiers from names: the
/// identifier is the position of the name in registration order, and the
/// hash index always mirrors that list.
pub struct FactMap {
    lut: Vec<String>,
    index: NameIndex,
}

impl View for FactMap {
    type V = Seq<Seq<char>>;

    closed spec fn view(&self) -> Seq<Seq<char>> {
        Seq::new(self.lut@.len(), |i: int| self.lut@[i]@)
    }
}

impl FactMap {
    /// The registered names are pairwise distinct, there are never more of
    /// them than identifiers, and the hash index holds exactly the
    /// name-to-position entries of the list.
    pub closed spec fn wf(&self) -> bool {
        &&& self@.len() <= u16::MAX + 1
        &&& (forall|i: int, j: int| 0 <= i < j < self@.len() ==> self@[i] != self@[j])
        &&& (forall|i: int|
            0 <= i < self@.len() ==> index_map(&self.index).contains_key(#[trigger] self@[i])
                && index_map(&self.index)[self@[i]] == i as u16)
        &&& (forall|k: Seq<char>|
            index_map(&self.index).contains_key(k) ==> name_in(self@, k))
    }

    /// An empty registry.
    pub fn new() -> (r: Self)
        ensures
            r@ == Seq::<Seq<char>>::empty(),
            r.wf(),
    {
        let mut index = index_new_unspecified();
        index_clear(&mut index);
        let r = FactMap { lut: Vec::new(), index };
        proof {
            assert(r@ =~= Seq::<Seq<char>>::empty());
        }
        r
    }

    /// Registers a fact name and returns its fresh identifier, or says which
    /// check rejected the name; a rejected registration leaves the registry
    /// unchanged.
    pub fn new_fact(&mut self, fact_name: String) -> (r: Result<FactId, NewFactError>)
        requires
            old(self).wf(),
        ensures
            final(self).wf(),
            r == new_fact_outcome(old(self)@, fact_name@),
            r is Ok ==> final(self)@ == old(self)@.push(fact_name@) && valid_fact_name(fact_name@)
                && !name_in(old(self)@, fact_name@),
            r is Err ==> final(self)@ == old(self)@,
    {
        let ghost name = fact_name@;
        let n_chars = fact_name.as_str().unicode_len();
        if n_chars == 0 {
            return Err(NewFactError::EmptyFactName);
        }
        let c0 = fact_name.as_str().get_char(0);
        if 48 <= c0 as u32 && c0 as u32 <= 57 {
            return Err(NewFactError::InitialDigitFactName);
        }
        let mut i: usize = 0;
        while i < n_chars
            invariant
                i <= n_chars == name.len(),
                name == fact_name@,
                name.len() > 0,
                !is_ascii_digit_char(name[0]),
                self == old(self),
                old(self).wf(),
                forall|j: int| 0 <= j < i ==> !is_ascii_ws_char(#[trigger] name[j]),
            decreases n_chars - i,
        {
            let c = fact_name.as_str().get_char(i);
            if c == ' ' || c == '\t' || c == '\n' || c == '\u{c}' || c == '\r' {
                proof {
                    assert(is_ascii_ws_char(name[i as int]));
                }
                return Err(NewFactError::ContainsAsciiWhitespaceFactName);
            }
            i = i + 1;
        }
        match index_get(&self.index, fact_name.as_str()) {
            Some(_) => {
                return Err(NewFactError::DuplicateFactName);
            }
            None => {}
        }
        proof {
            if name_in(self@, name) {
                let w = choose|w: int| name_at(self@, name, w);
                assert(index_map(&self.index).contains_key(self@[w]));
            }
        }
        let next = self.lut.len();
        if next > 65535 {
            return Err(NewFactError::OutOfFactIdSpace);
        }
        let id = next as u16;
        index_insert(&mut self.index, fact_name.as_str(), id);
        self.lut.push(fact_name);
        proof {
            assert(self@ =~= old(self)@.push(name));
            assert forall|a: int, b: int| 0 <= a < b < self@.len() implies self@[a] != self@[b] by {
                if b == self@.len() - 1 {
                    assert(!name_in(old(self)@, name));
                    assert(!name_at(old(self)@, name, a));
                }
            }
            assert forall|k: int| 0 <= k < self@.len() implies index_map(&self.index).contains_key(#[trigger] self@[k]) && index_map(&self.index)[self@[k]] == k as u16 by {
                if k < self@.len() - 1 {
                    assert(!name_at(old(self)@, name, k));
                    assert(self@[k] == old(self)@[k]);
                }
            }
            assert forall|k: Seq<char>| index_map(&self.index).contains_key(k) implies name_in(
                self@,
                k,
            ) by {
                if k == name {
                    assert(name_at(self@, k, self@.len() - 1));
                } else {
                    assert(index_map(&old(self).index).contains_key(k));
                    assert(name_in(old(self)@, k));
                    let w = choose|w: int| name_at(old(self)@, k, w);
                    assert(name_at(self@, k, w));
                }
            }
        }
        Ok(FactId(id))
    }

    /// The identifier a name was registered under, when it was.
    pub fn get_fact_id(&self, fact_name: &str) -> (r: Option<FactId>)
        requires
            self.wf(),
        ensures
            (r matches Some(f) ==> name_at(self@, fact_name@, f.0 as int)),
            (r is None ==> !name_in(self@, fact_name@)),
    {
        match index_get(&self.index, fact_name) {
            Some(id) => {
                proof {
                    assert(name_in(self@, fact_name@));
                    let w = choose|w: int| name_at(self@, fact_name@, w);
                    assert(index_map(&self.index)[self@[w]] == w as u16);
                    assert(w == id as int);
                }
                Some(FactId(id))
            }
            None => {
                proof {
                    if name_in(self@, fact_name@) {
                        let w = choose|w: int| name_at(self@, fact_name@, w);
                        assert(index_map(&self.index).contains_key(self@[w]));
                    }
                }
                None
            }
        }
    }

    /// Parses a value string: an integer literal denotes itself, a
    /// registered fact name denotes a reference to that fact, and anything
    /// else denotes the error sentinel.
    pub fn parse_value(&self, string: &str) -> (r: Value)
        requires
            self.wf(),
        ensures
            value_for(self@, string@, r),
    {
        match parse_i64(string) {
            Some(n) => Value::Int(n),
            None => match self.get_fact_id(string) {
                Some(f) => Value::Ref(f),
                None => Value::Error,
            },
        }
    }

    /// Parses a condition string of the shape `name operator value`, with
    /// ASCII whitespace as separator: exactly three fields, a registered
    /// fact name on the left, one of the six relational operators in the
    /// middle, and an integer or registered fact name on the right.
    pub fn parse_condition(&self, string: &str) -> (r: Result<Condition, ParseConditionError>)
        requires
            self.wf(),
        ensures
            parse_condition_outcome(self@, string@, r),
    {
        let ghost s = string@;
        let n = string.unicode_len();
        let a0 = skip_ws(string, 0);
        proof {
            lemma_skip_ws_bounds(s, 0);
        }
        if a0 == n {
            return Err(ParseConditionError::WrongFieldCount);
        }
        let b0 = scan_token(string, a0);
        proof {
            lemma_scan_token_bounds(s, a0 as int);
        }
        let a1 = skip_ws(string, b0);
        proof {
            lemma_skip_ws_bounds(s, b0 as int);
            assert(fields_from(s, 0) == seq![(a0 as int, b0 as int)] + fields_from(s, b0 as int));
        }
        if a1 == n {
            proof {
                assert(fields_from(s, b0 as int) =~= Seq::<(int, int)>::empty());
                assert(fields_from(s, 0).len() == 1);
            }
            return Err(ParseConditionError::WrongFieldCount);
        }
        let b1 = scan_token(string, a1);
        proof {
            lemma_scan_token_bounds(s, a1 as int);
        }
        let a2 = skip_ws(string, b1);
        proof {
            lemma_skip_ws_bounds(s, b1 as int);
            assert(fields_from(s, b0 as int) == seq![(a1 as int, b1 as int)] + fields_from(
                s,
                b1 as int,
            ));
        }
        if a2 == n {
            proof {
                assert(fields_from(s, b1 as int) =~= Seq::<(int, int)>::empty());
                assert(fields_from(s, 0).len() == 2);
            }
            return Err(ParseConditionError::WrongFieldCount);
        }
        let b2 = scan_token(string, a2);
        proof {
            lemma_scan_token_bounds(s, a2 as int);
        }
        let a3 = skip_ws(string, b2);
        proof {
            lemma_skip_ws_bounds(s, b2 as int);
            assert(fields_from(s, b1 as int) == seq![(a2 as int, b2 as int)] + fields_from(
                s,
                b2 as int,
            ));
        }
        if a3 != n {
            proof {
                lemma_scan_token_bounds(s, a3 as int);
                assert(fields_from(s, b2 as int) == seq![
                    (a3 as int, scan_token_spec(s, a3 as int)),
                ] + fields_from(s, scan_token_spec(s, a3 as int)));
                assert(fields_from(s, 0).len() >= 4);
            }
            return Err(ParseConditionError::WrongFieldCount);
        }
        proof {
            assert(fields_from(s, b2 as int) =~= Seq::<(int, int)>::empty());
            assert(fields_from(s, 0) =~= seq![
                (a0 as int, b0 as int),
                (a1 as int, b1 as int),
                (a2 as int, b2 as int),
            ]);
        }
        let lhs_str = string.substring_char(a0, b0);
        let op_str = string.substring_char(a1, b1);
        let rhs_str = string.substring_char(a2, b2);
        let lhs = match self.get_fact_id(lhs_str) {
            Some(f) => f,
            None => {
                return Err(ParseConditionError::LhsNotAFactId);
            },
        };
        let rhs = self.parse_value(rhs_str);
        if rhs.is_error() {
            return Err(ParseConditionError::RhsNotAFactNameOrId);
        }
        let op_len = b1 - a1;
        if op_len == 1 {
            let c = op_str.get_char(0);
            if c == '>' {
                Ok(Condition::Gt(lhs, rhs))
            } else if c == '<' {
                Ok(Condition::Lt(lhs, rhs))
            } else {
                Err(ParseConditionError::UnrecognizedOperator)
            }
        } else if op_len == 2 {
            let c0 = op_str.get_char(0);
            let c1 = op_str.get_char(1);
            if c0 == '=' && c1 == '=' {
                Ok(Condition::Eq(lhs, rhs))
            } else if c0 == '!' && c1 == '=' {
                Ok(Condition::Ne(lhs, rhs))
            } else if c0 == '>' && c1 == '=' {
                Ok(Condition::Ge(lhs, rhs))
            } else if c0 == '<' && c1 == '=' {
                Ok(Condition::Le(lhs, rhs))
            } else {
                Err(ParseConditionError::UnrecognizedOperator)
            }
        } else {
            Err(ParseConditionError::UnrecognizedOperator)
        }
    }

    /// All registered names, in registration (identifier) order.
    pub fn get_fact_names(&self) -> (r: &Vec<String>)
        ensures
            r@.len() == self@.len(),
            forall|i: int| 0 <= i < self@.len() ==> r@[i]@ == self@[i],
    {
        &self.lut
    }
}

impl Default for FactMap {
    fn default() -> (r: Self)
        ensures
            r@ == Seq::<Seq<char>>::empty(),
            r.wf(),
    {
        FactMap::new()
    }
}

} // verus!
