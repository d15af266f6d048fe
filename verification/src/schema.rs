//! The inference engine: folds a sequence of records into a canonical,
//! lexicographically ordered mapping from field name to declared type and
//! optionality.

use vstd::prelude::*;

use crate::order::compare_str;
use crate::order::lemma_lex_asym;
use crate::order::lemma_lex_irrefl;
use crate::order::lemma_lex_trans;
use crate::order::lex_lt;
use crate::order::KeyOrder;
use crate::value::type_of;
use crate::value::value_type;
use crate::value::TypeTag;
use crate::value::Value;

verus! {

/// Declared type and optionality of one field of an inferred schema.
#[derive(Clone, Copy, Debug, PartialEq, Eq)]
pub struct FieldState {
    pub tag: TypeTag,
    pub optional: bool,
}

/// Why a whole run fails: the top-level input is not an array, or the caller
/// asked for a notation no renderer supports.
#[derive(Clone, Copy, Debug, PartialEq, Eq)]
pub enum SchemaError {
    InputShape,
    UnknownNotation,
}

/// The key/value pairs of an object value; empty for any other kind.
pub open spec fn obj_pairs(v: Value) -> Seq<(String, Value)> {
    match v {
        Value::Object(ps) => ps@,
        _ => Seq::empty(),
    }
}

/// Whether some pair carries the field name `k`.
pub open spec fn pairs_have(ps: Seq<(String, Value)>, k: Seq<char>) -> bool {
    exists|i: int| 0 <= i < ps.len() && (#[trigger] ps[i]).0@ == k
}

/// The value paired with field name `k`; meaningful when the keys are
/// distinct and `k` occurs.
pub open spec fn pair_value(ps: Seq<(String, Value)>, k: Seq<char>) -> Value {
    ps[choose|i: int| 0 <= i < ps.len() && (#[trigger] ps[i]).0@ == k].1
}

/// An object is a mapping: no field name occurs twice.
pub open spec fn distinct_keys(ps: Seq<(String, Value)>) -> bool {
    forall|i: int, j: int| 0 <= i < j < ps.len() ==> (#[trigger] ps[i]).0@ != (#[trigger] ps[j]).0@
}

/// Every object among the records is a mapping with distinct field names.
pub open spec fn records_wf(rs: Seq<Value>) -> bool {
    forall|i: int| 0 <= i < rs.len() ==> distinct_keys(obj_pairs(#[trigger] rs[i]))
}

/// Whether the record is an object that carries the field `k`.
pub open spec fn record_has(v: Value, k: Seq<char>) -> bool {
    v is Object && pairs_have(obj_pairs(v), k)
}

/// The values observed for field `k`, one per object record that carries it,
/// in record order.
pub open spec fn observations(rs: Seq<Value>, k: Seq<char>) -> Seq<Value>
    decreases rs.len(),
{
    if rs.len() == 0 {
        Seq::empty()
    } else {
        let front = observations(rs.drop_last(), k);
        if record_has(rs.last(), k) {
            front.push(pair_value(obj_pairs(rs.last()), k))
        } else {
            front
        }
    }
}

/// Whether some object record carries the field `k`.
pub open spec fn appears(rs: Seq<Value>, k: Seq<char>) -> bool {
    exists|i: int| 0 <= i < rs.len() && record_has(#[trigger] rs[i], k)
}

/// Whether some object record lacks the field `k`.
pub open spec fn missing_somewhere(rs: Seq<Value>, k: Seq<char>) -> bool {
    exists|i: int| 0 <= i < rs.len() && (#[trigger] rs[i]) is Object && !record_has(rs[i], k)
}

/// How many of the records are objects.
pub open spec fn n_objects(rs: Seq<Value>) -> nat
    decreases rs.len(),
{
    if rs.len() == 0 {
        0
    } else {
        n_objects(rs.drop_last()) + if rs.last() is Object {
            1nat
        } else {
            0nat
        }
    }
}

/// Whether a null was observed.
pub open spec fn some_null(obs: Seq<Value>) -> bool {
    exists|i: int| 0 <= i < obs.len() && (#[trigger] obs[i]) is Null
}

/// The declared type after folding the observations: the last non-null
/// observation wins, and a field only ever seen as null keeps the null
/// placeholder type.
pub open spec fn tag_of_obs(obs: Seq<Value>) -> TypeTag
    decreases obs.len(),
{
    if obs.len() == 0 {
        TypeTag::AnyOrNull
    } else if obs.last() is Null {
        tag_of_obs(obs.drop_last())
    } else {
        type_of(obs.last())
    }
}

/// A field must permit absence or null exactly when some object record lacks
/// it or supplies null for it.
pub open spec fn field_optional(rs: Seq<Value>, k: Seq<char>) -> bool {
    missing_somewhere(rs, k) || some_null(observations(rs, k))
}

/// The final state inferred for field `k` over the whole record sequence.
pub open spec fn field_state(rs: Seq<Value>, k: Seq<char>) -> FieldState {
    FieldState { tag: tag_of_obs(observations(rs, k)), optional: field_optional(rs, k) }
}

/// The finished schema: field names with their inferred states, ordered
/// lexicographically by name.
#[derive(Debug)]
pub struct Schema {
    pub fields: Vec<(String, FieldState)>,
}

impl Schema {
    /// The fields as a sequence of (name, state) pairs over character
    /// sequences.
    pub open spec fn field_seq(self) -> Seq<(Seq<char>, FieldState)> {
        Seq::new(self.fields@.len(), |i: int| (self.fields@[i].0@, self.fields@[i].1))
    }

    /// The schema is sorted and carries exactly the inferred state of every
    /// field that appears in the records.
    pub open spec fn matches_records(self, rs: Seq<Value>) -> bool {
        fields_match(self.field_seq(), rs)
    }
}

/// Strictly sorted by name: lexicographic, no duplicates.
pub open spec fn sorted_fields(fs: Seq<(Seq<char>, FieldState)>) -> bool {
    forall|i: int, j: int| 0 <= i < j < fs.len() ==> lex_lt((#[trigger] fs[i]).0, (#[trigger] fs[j]).0)
}

/// Whether the field list carries the name `k`.
pub open spec fn has_field(fs: Seq<(Seq<char>, FieldState)>, k: Seq<char>) -> bool {
    exists|i: int| 0 <= i < fs.len() && (#[trigger] fs[i]).0 == k
}

/// The one canonical outcome of inference: sorted, carrying exactly the
/// appearing field names, each with its inferred state.
pub open spec fn fields_match(fs: Seq<(Seq<char>, FieldState)>, rs: Seq<Value>) -> bool {
    &&& sorted_fields(fs)
    &&& forall|k: Seq<char>|
        #![trigger has_field(fs, k)]
        #![trigger appears(rs, k)]
        has_field(fs, k) <==> appears(rs, k)
    &&& forall|i: int| 0 <= i < fs.len() ==> (#[trigger] fs[i]).1 == field_state(rs, fs[i].0)
}

/// The canonical field list of a record sequence; `lemma_schema_canonical`
/// shows every matching field list equals it.
pub open spec fn canonical_fields(rs: Seq<Value>) -> Seq<(Seq<char>, FieldState)> {
    choose|fs: Seq<(Seq<char>, FieldState)>| fields_match(fs, rs)
}

/// Looks the field name up among the pairs of one record.
fn find_pair<'a>(ps: &'a Vec<(String, Value)>, key: &String) -> (r: Option<&'a Value>)
    requires
        distinct_keys(ps@),
    ensures
        (match r {
            Option::Some(v) => pairs_have(ps@, key@) && *v == pair_value(ps@, key@),
            Option::None => !pairs_have(ps@, key@),
        }),
{
    let mut i: usize = 0;
    while i < ps.len()
        invariant
            i <= ps.len(),
            distinct_keys(ps@),
            forall|j: int| 0 <= j < i ==> (#[trigger] ps@[j]).0@ != key@,
        decreases ps.len() - i,
    {
        if ps[i].0 == *key {
            proof {
                assert(0 <= i < ps@.len() && ps@[i as int].0@ == key@);
                let w = choose|n: int| 0 <= n < ps@.len() && (#[trigger] ps@[n]).0@ == key@;
                if w < i {
                    assert(ps@[w].0@ != ps@[i as int].0@);
                } else if w > i {
                    assert(ps@[i as int].0@ != ps@[w].0@);
                }
                assert(w == i);
            }
            return Option::Some(&ps[i].1);
        }
        i = i + 1;
    }
    Option::None
}

/// Whether the sorted key list carries the name `q`.
pub open spec fn key_present(ks: Seq<String>, q: Seq<char>) -> bool {
    exists|i: int| 0 <= i < ks.len() && (#[trigger] ks[i])@ == q
}

/// Strictly sorted key list.
pub open spec fn sorted_keys(ks: Seq<String>) -> bool {
    forall|i: int, j: int| 0 <= i < j < ks.len() ==> lex_lt((#[trigger] ks[i])@, (#[trigger] ks[j])@)
}

/// Inserts a field name into the sorted key list, unless it is already there.
fn insert_key(keys: &mut Vec<String>, key: &String)
    requires
        sorted_keys(old(keys)@),
    ensures
        sorted_keys(final(keys)@),
        forall|q: Seq<char>|
            #[trigger] key_present(final(keys)@, q) <==> (key_present(old(keys)@, q) || q
                == key@),
{
    let mut p: usize = 0;
    loop
        invariant
            p <= keys.len(),
            keys@ == old(keys)@,
            sorted_keys(keys@),
            forall|j: int| 0 <= j < p ==> lex_lt((#[trigger] keys@[j])@, key@),
        ensures
            p <= keys.len(),
            keys@ == old(keys)@,
            forall|j: int| 0 <= j < p ==> lex_lt((#[trigger] keys@[j])@, key@),
            p < keys.len() ==> lex_lt(key@, keys@[p as int]@),
        decreases keys.len() - p,
    {
        if p == keys.len() {
            break ;
        }
        match compare_str(keys[p].as_str(), key.as_str()) {
            KeyOrder::Less => {
                p = p + 1;
            },
            KeyOrder::Equal => {
                proof {
                    assert(keys@[p as int]@ == key@);
                    assert(key_present(keys@, key@));
                }
                return ;
            },
            KeyOrder::Greater => {
                break ;
            },
        }
    }
    let ghost before = keys@;
    keys.insert(p, key.clone());
    proof {
        assert(keys@ == before.insert(p as int, *key));
        before.insert_ensures(p as int, *key);
        assert forall|i: int, j: int| 0 <= i < j < keys@.len() implies lex_lt(
            (#[trigger] keys@[i])@,
            (#[trigger] keys@[j])@,
        ) by {
            if i < p && j == p {
            } else if i < p && j > p {
            } else if i == p && j > p {
                lemma_lex_trans_opt(key@, before, p as int, j - 1);
            }
        }
        assert forall|q: Seq<char>| #[trigger] key_present(keys@, q) implies (key_present(
            before,
            q,
        ) || q == key@) by {
            let w = choose|n: int| 0 <= n < keys@.len() && (#[trigger] keys@[n])@ == q;
            if w < p {
                assert(before[w]@ == q);
            } else if w > p {
                assert(before[w - 1]@ == q);
            }
        }
        assert forall|q: Seq<char>| (key_present(before, q) || q == key@) implies key_present(
            keys@,
            q,
        ) by {
            if key_present(before, q) {
                let w = choose|n: int| 0 <= n < before.len() && (#[trigger] before[n])@ == q;
                if w < p {
                    assert(keys@[w]@ == q);
                } else {
                    assert(keys@[w + 1]@ == q);
                }
            } else {
                assert(keys@[p as int]@ == q);
            }
        }
    }
}

/// The inserted key stays below everything that was above the insertion
/// point.
proof fn lemma_lex_trans_opt(k: Seq<char>, before: Seq<String>, p: int, j: int)
    requires
        sorted_keys(before),
        0 <= p <= j < before.len(),
        p < before.len() ==> lex_lt(k, before[p]@),
    ensures
        lex_lt(k, before[j]@),
{
    if p < j {
        lemma_lex_trans(k, before[p]@, before[j]@);
    }
}

/// One more record extends the set of appearing fields by that record's own.
proof fn lemma_appears_step(rs: Seq<Value>, i: int, k: Seq<char>)
    requires
        0 <= i < rs.len(),
    ensures
        appears(rs.take(i + 1), k) <==> (appears(rs.take(i), k) || record_has(rs[i], k)),
{
    let t0 = rs.take(i);
    let t1 = rs.take(i + 1);
    if appears(t1, k) {
        let w = choose|n: int| 0 <= n < t1.len() && record_has(#[trigger] t1[n], k);
        if w < i {
            assert(t0[w] == rs[w]);
            assert(record_has(t0[w], k));
        } else {
            assert(t1[w] == rs[i]);
        }
    }
    if appears(t0, k) {
        let w = choose|n: int| 0 <= n < t0.len() && record_has(#[trigger] t0[n], k);
        assert(t1[w] == t0[w]);
        assert(record_has(t1[w], k));
    }
    if record_has(rs[i], k) {
        assert(record_has(t1[i], k));
    }
}

/// One more pair extends the set of field names seen in a record by one.
proof fn lemma_pairs_have_step(ps: Seq<(String, Value)>, j: int, k: Seq<char>)
    requires
        0 <= j < ps.len(),
    ensures
        pairs_have(ps.take(j + 1), k) <==> (pairs_have(ps.take(j), k) || ps[j].0@ == k),
{
    let t0 = ps.take(j);
    let t1 = ps.take(j + 1);
    if pairs_have(t1, k) {
        let w = choose|n: int| 0 <= n < t1.len() && (#[trigger] t1[n]).0@ == k;
        if w < j {
            assert(t0[w] == ps[w]);
            assert(t0[w].0@ == k);
        } else {
            assert(t1[w] == ps[j]);
        }
    }
    if pairs_have(t0, k) {
        let w = choose|n: int| 0 <= n < t0.len() && (#[trigger] t0[n]).0@ == k;
        assert(t1[w] == t0[w]);
        assert(t1[w].0@ == k);
    }
    if ps[j].0@ == k {
        assert(t1[j].0@ == k);
    }
}

/// A pushed observation adds one possible place for a null.
proof fn lemma_some_null_push(obs: Seq<Value>, x: Value)
    ensures
        some_null(obs.push(x)) <==> (some_null(obs) || x is Null),
{
    let p = obs.push(x);
    if some_null(p) {
        let w = choose|n: int| 0 <= n < p.len() && (#[trigger] p[n]) is Null;
        if w < obs.len() {
            assert(p[w] == obs[w]);
            assert(obs[w] is Null);
        } else {
            assert(p[w] == x);
        }
    }
    if some_null(obs) {
        let w = choose|n: int| 0 <= n < obs.len() && (#[trigger] obs[n]) is Null;
        assert(p[w] == obs[w]);
        assert(p[w] is Null);
    }
    if x is Null {
        assert(p[obs.len() as int] == x);
        assert(p[obs.len() as int] is Null);
    }
}

/// A field is missing somewhere in a nonempty record sequence exactly when it
/// is missing in the front or missing in the last record.
proof fn lemma_missing_step(rs: Seq<Value>, k: Seq<char>)
    requires
        rs.len() > 0,
    ensures
        missing_somewhere(rs, k) <==> (missing_somewhere(rs.drop_last(), k) || (rs.last()
            is Object && !record_has(rs.last(), k))),
{
    let front = rs.drop_last();
    let last = rs.len() - 1;
    if missing_somewhere(rs, k) {
        let w = choose|n: int|
            0 <= n < rs.len() && (#[trigger] rs[n]) is Object && !record_has(rs[n], k);
        if w < last {
            assert(front[w] == rs[w]);
            assert(front[w] is Object && !record_has(front[w], k));
        } else {
            assert(rs[last] == rs.last());
        }
    }
    if missing_somewhere(front, k) {
        let w = choose|n: int|
            0 <= n < front.len() && (#[trigger] front[n]) is Object && !record_has(front[n], k);
        assert(rs[w] == front[w]);
        assert(rs[w] is Object && !record_has(rs[w], k));
    }
    if rs.last() is Object && !record_has(rs.last(), k) {
        assert(rs[last] is Object && !record_has(rs[last], k));
    }
}

/// A field is observed at most once per object record, and exactly as often
/// as there are object records precisely when no object record lacks it.
pub proof fn lemma_obs_count(rs: Seq<Value>, k: Seq<char>)
    ensures
        observations(rs, k).len() <= n_objects(rs),
        (observations(rs, k).len() == n_objects(rs)) <==> !missing_somewhere(rs, k),
    decreases rs.len(),
{
    if rs.len() == 0 {
        assert(!missing_somewhere(rs, k));
    } else {
        let front = rs.drop_last();
        lemma_obs_count(front, k);
        lemma_missing_step(rs, k);
    }
}

/// Collects every field name of every object record, sorted, each once.
fn collect_keys(records: &Vec<Value>) -> (keys: Vec<String>)
    ensures
        sorted_keys(keys@),
        forall|q: Seq<char>| #[trigger] key_present(keys@, q) <==> appears(records@, q),
{
    let mut keys: Vec<String> = Vec::new();
    let mut i: usize = 0;
    while i < records.len()
        invariant
            i <= records.len(),
            sorted_keys(keys@),
            forall|q: Seq<char>|
                #[trigger] key_present(keys@, q) <==> appears(records@.take(i as int), q),
        decreases records.len() - i,
    {
        let ghost t0 = records@.take(i as int);
        let rec = &records[i];
        match rec {
            Value::Object(ps) => {
                proof {
                    assert(ps@.take(0) =~= Seq::<(String, Value)>::empty());
                }
                let mut j: usize = 0;
                while j < ps.len()
                    invariant
                        j <= ps.len(),
                        i < records.len(),
                        records@[i as int] is Object,
                        obj_pairs(records@[i as int]) == ps@,
                        t0 == records@.take(i as int),
                        sorted_keys(keys@),
                        forall|q: Seq<char>|
                            #[trigger] key_present(keys@, q) <==> (appears(t0, q) || pairs_have(
                                ps@.take(j as int),
                                q,
                            )),
                    decreases ps.len() - j,
                {
                    insert_key(&mut keys, &ps[j].0);
                    proof {
                        assert forall|q: Seq<char>| #[trigger]
                            key_present(keys@, q) <==> (appears(t0, q) || pairs_have(
                                ps@.take(j as int + 1),
                                q,
                            )) by {
                            lemma_pairs_have_step(ps@, j as int, q);
                        }
                    }
                    j = j + 1;
                }
                proof {
                    assert(ps@.take(ps@.len() as int) =~= ps@);
                    assert forall|q: Seq<char>| #[trigger]
                        key_present(keys@, q) <==> appears(records@.take(i as int + 1), q) by {
                        lemma_appears_step(records@, i as int, q);
                        assert(pairs_have(ps@, q) == record_has(records@[i as int], q));
                    }
                }
            },
            _ => {
                proof {
                    assert forall|q: Seq<char>| #[trigger]
                        key_present(keys@, q) <==> appears(records@.take(i as int + 1), q) by {
                        lemma_appears_step(records@, i as int, q);
                    }
                }
            },
        }
        i = i + 1;
    }
    proof {
        assert(records@.take(records@.len() as int) =~= records@);
    }
    keys
}

/// Scans the whole record sequence for one field and folds its state.
fn field_state_for(records: &Vec<Value>, key: &String) -> (st: FieldState)
    requires
        records_wf(records@),
    ensures
        st == field_state(records@, key@),
{
    let mut tag = TypeTag::AnyOrNull;
    let mut saw_null = false;
    let mut cnt: usize = 0;
    let mut nobj: usize = 0;
    let mut i: usize = 0;
    while i < records.len()
        invariant
            i <= records.len(),
            records_wf(records@),
            cnt <= i,
            nobj <= i,
            cnt as nat == observations(records@.take(i as int), key@).len(),
            nobj as nat == n_objects(records@.take(i as int)),
            saw_null == some_null(observations(records@.take(i as int), key@)),
            tag == tag_of_obs(observations(records@.take(i as int), key@)),
        decreases records.len() - i,
    {
        let ghost t0 = records@.take(i as int);
        let ghost t1 = records@.take(i as int + 1);
        proof {
            assert(t1.drop_last() =~= t0);
            assert(t1.last() == records@[i as int]);
        }
        let rec = &records[i];
        match rec {
            Value::Object(ps) => {
                proof {
                    assert(distinct_keys(obj_pairs(records@[i as int])));
                    assert(obj_pairs(records@[i as int]) == ps@);
                }
                nobj = nobj + 1;
                match find_pair(ps, key) {
                    Option::Some(v) => {
                        cnt = cnt + 1;
                        proof {
                            assert(record_has(records@[i as int], key@));
                            assert(observations(t1, key@) == observations(t0, key@).push(
                                pair_value(ps@, key@),
                            ));
                            lemma_some_null_push(observations(t0, key@), pair_value(ps@, key@));
                            assert(observations(t1, key@).last() == *v);
                            assert(observations(t1, key@).drop_last() =~= observations(t0, key@));
                        }
                        match v {
                            Value::Null => {
                                saw_null = true;
                            },
                            _ => {
                                tag = value_type(v);
                            },
                        }
                    },
                    Option::None => {
                        proof {
                            assert(!record_has(records@[i as int], key@));
                            assert(observations(t1, key@) == observations(t0, key@));
                        }
                    },
                }
            },
            _ => {
                proof {
                    assert(!(records@[i as int] is Object));
                    assert(!record_has(records@[i as int], key@));
                    assert(observations(t1, key@) == observations(t0, key@));
                }
            },
        }
        i = i + 1;
    }
    proof {
        assert(records@.take(records@.len() as int) =~= records@);
        lemma_obs_count(records@, key@);
    }
    let optional = saw_null || cnt < nobj;
    FieldState { tag, optional }
}

/// Drives the fold across all records and assembles the sorted schema.
pub fn build_records(records: &Vec<Value>) -> (s: Schema)
    requires
        records_wf(records@),
    ensures
        s.matches_records(records@),
{
    let keys = collect_keys(records);
    let mut fields: Vec<(String, FieldState)> = Vec::new();
    let mut ki: usize = 0;
    while ki < keys.len()
        invariant
            ki <= keys.len(),
            records_wf(records@),
            sorted_keys(keys@),
            forall|q: Seq<char>| #[trigger] key_present(keys@, q) <==> appears(records@, q),
            fields@.len() == ki,
            forall|n: int|
                0 <= n < ki ==> (#[trigger] fields@[n]).0@ == keys@[n]@ && fields@[n].1
                    == field_state(records@, keys@[n]@),
        decreases keys.len() - ki,
    {
        let st = field_state_for(records, &keys[ki]);
        fields.push((keys[ki].clone(), st));
        ki = ki + 1;
    }
    let s = Schema { fields };
    proof {
        let fs = s.field_seq();
        assert forall|i: int, j: int| 0 <= i < j < fs.len() implies lex_lt(
            (#[trigger] fs[i]).0,
            (#[trigger] fs[j]).0,
        ) by {
            assert(lex_lt(keys@[i]@, keys@[j]@));
        }
        assert forall|k: Seq<char>| #[trigger] has_field(fs, k) implies appears(records@, k) by {
            let w = choose|n: int| 0 <= n < fs.len() && (#[trigger] fs[n]).0 == k;
            assert(keys@[w]@ == k);
            assert(key_present(keys@, k));
        }
        assert forall|k: Seq<char>| #[trigger] appears(records@, k) implies has_field(fs, k) by {
            assert(key_present(keys@, k));
            let w = choose|n: int| 0 <= n < keys@.len() && (#[trigger] keys@[n])@ == k;
            assert(fs[w].0 == k);
        }
        assert forall|n: int| 0 <= n < fs.len() implies (#[trigger] fs[n]).1 == field_state(
            records@,
            fs[n].0,
        ) by {
            assert(fields@[n].1 == field_state(records@, keys@[n]@));
        }
    }
    s
}

/// The elements of a top-level array value; empty for any other kind.
pub open spec fn input_elems(v: Value) -> Seq<Value> {
    match v {
        Value::Array(rs) => rs@,
        _ => Seq::empty(),
    }
}

/// Every object record of a top-level array is a mapping with distinct keys.
pub open spec fn input_wf(v: Value) -> bool {
    v is Array ==> records_wf(input_elems(v))
}

/// Builds the schema of a whole parsed input: the input must be an array of
/// records, anything else fails fast with the shape error and produces
/// nothing.
pub fn build(input: &Value) -> (r: Result<Schema, SchemaError>)
    requires
        input_wf(*input),
    ensures
        r is Ok <==> *input is Array,
        (r matches Ok(s) ==> s.matches_records(input_elems(*input))),
        (r matches Err(e) ==> e == SchemaError::InputShape),
{
    match input {
        Value::Array(records) => Ok(build_records(records)),
        _ => Err(SchemaError::InputShape),
    }
}

/// Whether a name occurs in a list of names.
pub open spec fn name_has(xs: Seq<Seq<char>>, k: Seq<char>) -> bool {
    exists|i: int| 0 <= i < xs.len() && (#[trigger] xs[i]) == k
}

/// Strictly sorted name list.
pub open spec fn sorted_names(xs: Seq<Seq<char>>) -> bool {
    forall|i: int, j: int| 0 <= i < j < xs.len() ==> lex_lt(#[trigger] xs[i], #[trigger] xs[j])
}

/// In a sorted name list, the tail carries exactly the names other than the
/// head.
proof fn lemma_tail_membership(xs: Seq<Seq<char>>, k: Seq<char>)
    requires
        sorted_names(xs),
        xs.len() > 0,
    ensures
        name_has(xs.skip(1), k) <==> (name_has(xs, k) && k != xs[0]),
{
    let xt = xs.skip(1);
    if name_has(xt, k) {
        let w = choose|i: int| 0 <= i < xt.len() && (#[trigger] xt[i]) == k;
        assert(xt[w] == xs[w + 1]);
        assert(name_has(xs, k));
        assert(lex_lt(xs[0], xs[w + 1]));
        if k == xs[0] {
            lemma_lex_irrefl(k);
        }
    }
    if name_has(xs, k) && k != xs[0] {
        let w = choose|i: int| 0 <= i < xs.len() && (#[trigger] xs[i]) == k;
        assert(w > 0);
        assert(xt[w - 1] == xs[w]);
        assert(name_has(xt, k));
    }
}

/// Two strictly sorted name lists with the same members are the same list.
proof fn lemma_sorted_names_unique(xs: Seq<Seq<char>>, ys: Seq<Seq<char>>)
    requires
        sorted_names(xs),
        sorted_names(ys),
        forall|k: Seq<char>|
            #![trigger name_has(xs, k)]
            #![trigger name_has(ys, k)]
            name_has(xs, k) <==> name_has(ys, k),
    ensures
        xs == ys,
    decreases xs.len(),
{
    if xs.len() == 0 {
        if ys.len() > 0 {
            assert(name_has(ys, ys[0]));
            let w = choose|i: int| 0 <= i < xs.len() && (#[trigger] xs[i]) == ys[0];
            assert(false);
        }
        assert(xs =~= ys);
    } else if ys.len() == 0 {
        assert(name_has(xs, xs[0]));
        let w = choose|i: int| 0 <= i < ys.len() && (#[trigger] ys[i]) == xs[0];
        assert(false);
    } else {
        assert(name_has(xs, xs[0]));
        let wy = choose|i: int| 0 <= i < ys.len() && (#[trigger] ys[i]) == xs[0];
        assert(name_has(ys, ys[0]));
        let wx = choose|i: int| 0 <= i < xs.len() && (#[trigger] xs[i]) == ys[0];
        if xs[0] != ys[0] {
            assert(wy > 0);
            assert(wx > 0);
            assert(lex_lt(ys[0], ys[wy]));
            assert(lex_lt(xs[0], xs[wx]));
            lemma_lex_asym(xs[0], ys[0]);
            assert(false);
        }
        let xt = xs.skip(1);
        let yt = ys.skip(1);
        assert forall|i: int, j: int| 0 <= i < j < xt.len() implies lex_lt(
            #[trigger] xt[i],
            #[trigger] xt[j],
        ) by {
            assert(xt[i] == xs[i + 1]);
            assert(xt[j] == xs[j + 1]);
        }
        assert forall|i: int, j: int| 0 <= i < j < yt.len() implies lex_lt(
            #[trigger] yt[i],
            #[trigger] yt[j],
        ) by {
            assert(yt[i] == ys[i + 1]);
            assert(yt[j] == ys[j + 1]);
        }
        assert forall|k: Seq<char>|
            #![trigger name_has(xt, k)]
            #![trigger name_has(yt, k)]
            name_has(xt, k) <==> name_has(yt, k) by {
            lemma_tail_membership(xs, k);
            lemma_tail_membership(ys, k);
        }
        lemma_sorted_names_unique(xt, yt);
        assert(xs.len() == ys.len());
        assert forall|m: int| 0 <= m < xs.len() implies xs[m] == ys[m] by {
            if m > 0 {
                assert(xs[m] == xt[m - 1]);
                assert(ys[m] == yt[m - 1]);
            }
        }
        assert(xs =~= ys);
    }
}

/// Canonicality: any two field lists matching the same record sequence are
/// identical — the inference outcome is unique.
pub proof fn lemma_fields_match_unique(
    rs: Seq<Value>,
    f1: Seq<(Seq<char>, FieldState)>,
    f2: Seq<(Seq<char>, FieldState)>,
)
    requires
        fields_match(f1, rs),
        fields_match(f2, rs),
    ensures
        f1 == f2,
{
    let xs = Seq::new(f1.len(), |i: int| f1[i].0);
    let ys = Seq::new(f2.len(), |i: int| f2[i].0);
    assert forall|i: int, j: int| 0 <= i < j < xs.len() implies lex_lt(
        #[trigger] xs[i],
        #[trigger] xs[j],
    ) by {
        assert(lex_lt(f1[i].0, f1[j].0));
    }
    assert forall|i: int, j: int| 0 <= i < j < ys.len() implies lex_lt(
        #[trigger] ys[i],
        #[trigger] ys[j],
    ) by {
        assert(lex_lt(f2[i].0, f2[j].0));
    }
    assert forall|k: Seq<char>|
        #![trigger name_has(xs, k)]
        #![trigger name_has(ys, k)]
        name_has(xs, k) <==> name_has(ys, k) by {
        if name_has(xs, k) {
            let w = choose|i: int| 0 <= i < xs.len() && (#[trigger] xs[i]) == k;
            assert(f1[w].0 == k);
            assert(has_field(f1, k));
        }
        if appears(rs, k) {
            let w = choose|i: int| 0 <= i < f2.len() && (#[trigger] f2[i]).0 == k;
            assert(ys[w] == k);
            assert(name_has(ys, k));
        }
        if name_has(ys, k) {
            let w = choose|i: int| 0 <= i < ys.len() && (#[trigger] ys[i]) == k;
            assert(f2[w].0 == k);
            assert(has_field(f2, k));
        }
        if appears(rs, k) {
            let w = choose|i: int| 0 <= i < f1.len() && (#[trigger] f1[i]).0 == k;
            assert(xs[w] == k);
            assert(name_has(xs, k));
        }
    }
    lemma_sorted_names_unique(xs, ys);
    assert forall|m: int| 0 <= m < f1.len() implies f1[m] == f2[m] by {
        assert(xs[m] == ys[m]);
        assert(f1[m].0 == f2[m].0);
        assert(f1[m].1 == field_state(rs, f1[m].0));
        assert(f2[m].1 == field_state(rs, f2[m].0));
    }
    assert(f1 =~= f2);
}

/// Every matching field list is the canonical one.
pub proof fn lemma_schema_canonical(rs: Seq<Value>, fs: Seq<(Seq<char>, FieldState)>)
    requires
        fields_match(fs, rs),
    ensures
        canonical_fields(rs) == fs,
{
    assert(fields_match(canonical_fields(rs), rs)) by {
        assert(fields_match(fs, rs));
    }
    lemma_fields_match_unique(rs, canonical_fields(rs), fs);
}

/// Determinism: two schemas inferred from the same record sequence are
/// field-for-field identical.
pub proof fn lemma_build_deterministic(rs: Seq<Value>, s1: Schema, s2: Schema)
    requires
        s1.matches_records(rs),
        s2.matches_records(rs),
    ensures
        s1.field_seq() == s2.field_seq(),
{
    lemma_fields_match_unique(rs, s1.field_seq(), s2.field_seq());
}

/// Whether some object record supplies null for the field.
pub open spec fn null_observed(rs: Seq<Value>, k: Seq<char>) -> bool {
    exists|i: int|
        0 <= i < rs.len() && record_has(#[trigger] rs[i], k) && pair_value(obj_pairs(rs[i]), k)
            is Null
}

/// A null is supplied somewhere in a nonempty record sequence exactly when
/// it is supplied in the front or in the last record.
proof fn lemma_null_observed_step(rs: Seq<Value>, k: Seq<char>)
    requires
        rs.len() > 0,
    ensures
        null_observed(rs, k) <==> (null_observed(rs.drop_last(), k) || (record_has(rs.last(), k)
            && pair_value(obj_pairs(rs.last()), k) is Null)),
{
    let front = rs.drop_last();
    let last = rs.len() - 1;
    if null_observed(rs, k) {
        let w = choose|n: int|
            0 <= n < rs.len() && record_has(#[trigger] rs[n], k) && pair_value(
                obj_pairs(rs[n]),
                k,
            ) is Null;
        if w < last {
            assert(front[w] == rs[w]);
            assert(record_has(front[w], k) && pair_value(obj_pairs(front[w]), k) is Null);
        } else {
            assert(rs[last] == rs.last());
        }
    }
    if null_observed(front, k) {
        let w = choose|n: int|
            0 <= n < front.len() && record_has(#[trigger] front[n], k) && pair_value(
                obj_pairs(front[n]),
                k,
            ) is Null;
        assert(rs[w] == front[w]);
        assert(record_has(rs[w], k) && pair_value(obj_pairs(rs[w]), k) is Null);
    }
    if record_has(rs.last(), k) && pair_value(obj_pairs(rs.last()), k) is Null {
        assert(record_has(rs[last], k) && pair_value(obj_pairs(rs[last]), k) is Null);
    }
}

/// A null stands among the observations of a field exactly when some object
/// record supplies null for it.
pub proof fn lemma_some_null_iff(rs: Seq<Value>, k: Seq<char>)
    ensures
        some_null(observations(rs, k)) <==> null_observed(rs, k),
    decreases rs.len(),
{
    if rs.len() > 0 {
        let front = rs.drop_last();
        lemma_some_null_iff(front, k);
        lemma_null_observed_step(rs, k);
        if record_has(rs.last(), k) {
            lemma_some_null_push(observations(front, k), pair_value(obj_pairs(rs.last()), k));
        }
    }
}

/// Presence law: a field is required — optional is false — exactly when
/// every object record carries it with a non-null value.
pub proof fn lemma_presence_law(rs: Seq<Value>, k: Seq<char>)
    ensures
        !field_state(rs, k).optional <==> (forall|i: int|
            0 <= i < rs.len() ==> ((#[trigger] rs[i]) is Object ==> (record_has(rs[i], k) && !(
            pair_value(obj_pairs(rs[i]), k) is Null)))),
{
    lemma_some_null_iff(rs, k);
    if !field_state(rs, k).optional {
        assert forall|i: int|
            0 <= i < rs.len() implies ((#[trigger] rs[i]) is Object ==> (record_has(rs[i], k) && !(
        pair_value(obj_pairs(rs[i]), k) is Null))) by {
            if rs[i] is Object {
                if !record_has(rs[i], k) {
                    assert(missing_somewhere(rs, k));
                    assert(false);
                }
                if pair_value(obj_pairs(rs[i]), k) is Null {
                    assert(null_observed(rs, k));
                    assert(false);
                }
            }
        }
    }
    if (forall|i: int|
        0 <= i < rs.len() ==> ((#[trigger] rs[i]) is Object ==> (record_has(rs[i], k) && !(
        pair_value(obj_pairs(rs[i]), k) is Null)))) {
        if missing_somewhere(rs, k) {
            let w = choose|n: int|
                0 <= n < rs.len() && (#[trigger] rs[n]) is Object && !record_has(rs[n], k);
            assert(record_has(rs[w], k));
            assert(false);
        }
        if null_observed(rs, k) {
            let w = choose|n: int|
                0 <= n < rs.len() && record_has(#[trigger] rs[n], k) && pair_value(
                    obj_pairs(rs[n]),
                    k,
                ) is Null;
            assert(rs[w] is Object);
            assert(false);
        }
    }
}

/// Null-absorption law: one object record that lacks the field or supplies
/// null for it forces the field optional, whatever else is observed.
pub proof fn lemma_null_absorption(rs: Seq<Value>, k: Seq<char>, i: int)
    requires
        0 <= i < rs.len(),
        rs[i] is Object,
        !record_has(rs[i], k) || pair_value(obj_pairs(rs[i]), k) is Null,
    ensures
        field_state(rs, k).optional,
{
    lemma_some_null_iff(rs, k);
    if !record_has(rs[i], k) {
        assert(missing_somewhere(rs, k));
    } else {
        assert(null_observed(rs, k));
    }
}

} // verus!
