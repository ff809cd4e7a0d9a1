//! The normalized response value that makes backend answers comparable.

use vstd::prelude::*;
use crate::error::Error;
use crate::json::{lookup, lookup_entries, Json};

verus! {

/// Normalized response shape shared by every query backend. All fields are
/// optional to accommodate backends that do not report them; `player_names`
/// is an unordered set of strings, held as a duplicate-free vector.
#[derive(Clone, Debug)]
pub struct CommonValue {
    pub name: Option<String>,
    pub map: Option<String>,
    pub has_password: Option<bool>,
    pub players_online: Option<u64>,
    pub players_maximum: Option<u64>,
    pub player_names: Vec<String>,
}

/// Two optional strings hold the same text.
pub open spec fn opt_text_eq(a: Option<String>, b: Option<String>) -> bool {
    match (a, b) {
        (Option::None, Option::None) => true,
        (Option::Some(x), Option::Some(y)) => x@ == y@,
        _ => false,
    }
}

/// The set of texts a list of names holds.
pub open spec fn names_set(v: Seq<String>) -> Set<Seq<char>> {
    v.map_values(|s: String| s@).to_set()
}

/// Equality on normalized responses: field-wise, with set equality on
/// `player_names` (no ordering, no duplicates).
pub open spec fn value_eq(a: CommonValue, b: CommonValue) -> bool {
    &&& opt_text_eq(a.name, b.name)
    &&& opt_text_eq(a.map, b.map)
    &&& a.has_password == b.has_password
    &&& a.players_online == b.players_online
    &&& a.players_maximum == b.players_maximum
    &&& names_set(a.player_names@) == names_set(b.player_names@)
}

/// Some element of the vector holds the text `x`.
pub open spec fn text_in(v: Seq<String>, x: Seq<char>) -> bool {
    exists|j: int| 0 <= j < v.len() && v[j]@ == x
}

/// A names set holds a text exactly when some element of the vector does.
pub proof fn lemma_names_set_contains(v: Seq<String>, x: Seq<char>)
    ensures
        names_set(v).contains(x) <==> text_in(v, x),
{
    if text_in(v, x) {
        let j = choose|j: int| 0 <= j < v.len() && v[j]@ == x;
        assert(v.map_values(|s: String| s@)[j] == x);
    }
    if names_set(v).contains(x) {
        let mapped = v.map_values(|s: String| s@);
        let j = choose|j: int| 0 <= j < mapped.len() && #[trigger] mapped[j] == x;
        assert(v[j]@ == x);
    }
}

fn text_list_contains(v: &Vec<String>, s: &String) -> (r: bool)
    ensures
        r == text_in(v@, s@),
{
    let mut j: usize = 0;
    while j < v.len()
        invariant
            j <= v@.len(),
            forall|k: int| 0 <= k < j ==> v@[k]@ != s@,
        decreases v@.len() - j,
    {
        if s.eq(&v[j]) {
            return true;
        }
        j = j + 1;
    }
    false
}

/// Every text of `a` appears in `b`.
fn text_list_subset(a: &Vec<String>, b: &Vec<String>) -> (r: bool)
    ensures
        r == forall|i: int| 0 <= i < a@.len() ==> text_in(b@, (#[trigger] a@[i])@),
{
    let mut i: usize = 0;
    while i < a.len()
        invariant
            i <= a@.len(),
            forall|k: int| 0 <= k < i ==> text_in(b@, (#[trigger] a@[k])@),
        decreases a@.len() - i,
    {
        if !text_list_contains(b, &a[i]) {
            return false;
        }
        i = i + 1;
    }
    true
}

fn opt_string_eq(a: &Option<String>, b: &Option<String>) -> (r: bool)
    ensures
        r == opt_text_eq(*a, *b),
{
    match (a, b) {
        (Option::None, Option::None) => true,
        (Option::Some(x), Option::Some(y)) => x.eq(y),
        _ => false,
    }
}

fn opt_u64_eq(a: &Option<u64>, b: &Option<u64>) -> (r: bool)
    ensures
        r == (*a == *b),
{
    match (a, b) {
        (Option::None, Option::None) => true,
        (Option::Some(x), Option::Some(y)) => *x == *y,
        _ => false,
    }
}

fn opt_bool_eq(a: &Option<bool>, b: &Option<bool>) -> (r: bool)
    ensures
        r == (*a == *b),
{
    match (a, b) {
        (Option::None, Option::None) => true,
        (Option::Some(x), Option::Some(y)) => *x == *y,
        _ => false,
    }
}

impl PartialEq for CommonValue {
    /// Field-wise comparison with set semantics on `player_names`.
    fn eq(&self, other: &CommonValue) -> (r: bool) {
        let names_equal = text_list_subset(&self.player_names, &other.player_names)
            && text_list_subset(&other.player_names, &self.player_names);
        proof {
            if names_equal {
                assert forall|x: Seq<char>| names_set(self.player_names@).contains(x)
                    implies names_set(other.player_names@).contains(x) by {
                    lemma_names_set_contains(self.player_names@, x);
                    lemma_names_set_contains(other.player_names@, x);
                }
                assert forall|x: Seq<char>| names_set(other.player_names@).contains(x)
                    implies names_set(self.player_names@).contains(x) by {
                    lemma_names_set_contains(self.player_names@, x);
                    lemma_names_set_contains(other.player_names@, x);
                }
                assert(names_set(self.player_names@) =~= names_set(other.player_names@));
            } else {
                if !(forall|i: int|
                    0 <= i < self.player_names@.len() ==> text_in(
                        other.player_names@,
                        (#[trigger] self.player_names@[i])@,
                    )) {
                    let i = choose|i: int|
                        0 <= i < self.player_names@.len() && !text_in(
                            other.player_names@,
                            (#[trigger] self.player_names@[i])@,
                        );
                    lemma_names_set_contains(self.player_names@, self.player_names@[i]@);
                    lemma_names_set_contains(other.player_names@, self.player_names@[i]@);
                } else {
                    let i = choose|i: int|
                        0 <= i < other.player_names@.len() && !text_in(
                            self.player_names@,
                            (#[trigger] other.player_names@[i])@,
                        );
                    lemma_names_set_contains(other.player_names@, other.player_names@[i]@);
                    lemma_names_set_contains(self.player_names@, other.player_names@[i]@);
                }
            }
        }
        opt_string_eq(&self.name, &other.name) && opt_string_eq(&self.map, &other.map)
            && opt_bool_eq(&self.has_password, &other.has_password) && opt_u64_eq(
            &self.players_online,
            &other.players_online,
        ) && opt_u64_eq(&self.players_maximum, &other.players_maximum) && names_equal
    }
}

impl vstd::std_specs::cmp::PartialEqSpecImpl for CommonValue {
    open spec fn obeys_eq_spec() -> bool {
        true
    }

    open spec fn eq_spec(&self, other: &CommonValue) -> bool {
        value_eq(*self, *other)
    }
}

/// The distinct texts, in order of first appearance.
pub open spec fn dedup_texts(texts: Seq<Seq<char>>) -> Seq<Seq<char>>
    decreases texts.len(),
{
    if texts.len() == 0 {
        Seq::empty()
    } else {
        let prior = dedup_texts(texts.drop_last());
        if prior.contains(texts.last()) {
            prior
        } else {
            prior.push(texts.last())
        }
    }
}

/// The texts of a list of strings.
pub open spec fn texts_of(v: Seq<String>) -> Seq<Seq<char>> {
    v.map_values(|s: String| s@)
}

/// Keeps the first occurrence of each text.
fn dedup_strings(v: &Vec<String>) -> (r: Vec<String>)
    ensures
        texts_of(r@) == dedup_texts(texts_of(v@)),
{
    let mut r: Vec<String> = Vec::new();
    let mut i: usize = 0;
    proof {
        assert(texts_of(v@).take(0) =~= Seq::<Seq<char>>::empty());
        assert(texts_of(r@) =~= Seq::<Seq<char>>::empty());
    }
    while i < v.len()
        invariant
            i <= v@.len(),
            texts_of(r@) == dedup_texts(texts_of(v@).take(i as int)),
        decreases v@.len() - i,
    {
        let ghost pre = r@;
        proof {
            assert(texts_of(v@).take(i as int + 1).drop_last() =~= texts_of(v@).take(i as int));
            assert(texts_of(v@).take(i as int + 1).last() == v@[i as int]@);
            if text_in(pre, v@[i as int]@) {
                let j = choose|j: int| 0 <= j < pre.len() && pre[j]@ == v@[i as int]@;
                assert(texts_of(pre)[j] == v@[i as int]@);
            }
            if texts_of(pre).contains(v@[i as int]@) {
                let j = choose|j: int|
                    0 <= j < texts_of(pre).len() && #[trigger] texts_of(pre)[j] == v@[i as int]@;
                assert(pre[j]@ == v@[i as int]@);
            }
        }
        if !text_list_contains(&r, &v[i]) {
            r.push(v[i].clone());
            proof {
                assert(texts_of(r@) =~= texts_of(pre).push(v@[i as int]@));
            }
        }
        i = i + 1;
    }
    proof {
        assert(texts_of(v@).take(v@.len() as int) =~= texts_of(v@));
    }
    r
}

impl CommonValue {
    /// Builds a normalized response from already-extracted fields, keeping
    /// the distinct player names in order of first appearance.
    pub fn from_parts(
        name: Option<String>,
        map: Option<String>,
        has_password: Option<bool>,
        players_online: Option<u64>,
        players_maximum: Option<u64>,
        players: Option<Vec<String>>,
    ) -> (r: CommonValue)
        ensures
            r.name == name,
            r.map == map,
            r.has_password == has_password,
            r.players_online == players_online,
            r.players_maximum == players_maximum,
            texts_of(r.player_names@) == match players {
                Some(v) => dedup_texts(texts_of(v@)),
                None => Seq::<Seq<char>>::empty(),
            },
    {
        let player_names = match players {
            Some(v) => dedup_strings(&v),
            None => Vec::new(),
        };
        proof {
            if players is None {
                assert(texts_of(Seq::<String>::empty()) =~= Seq::<Seq<char>>::empty());
            }
        }
        CommonValue { name, map, has_password, players_online, players_maximum, player_names }
    }
}

/// The text stored under `key`, when the entry holds a string.
pub open spec fn str_field(entries: Seq<(String, Json)>, key: Seq<char>) -> Option<Seq<char>> {
    match lookup_entries(entries, key) {
        Some(Json::Str(s)) => Some(s@),
        _ => None,
    }
}

/// The boolean stored under `key`, when the entry holds one.
pub open spec fn bool_field(entries: Seq<(String, Json)>, key: Seq<char>) -> Option<bool> {
    match lookup_entries(entries, key) {
        Some(Json::Bool(b)) => Some(b),
        _ => None,
    }
}

/// The unsigned number stored under `key`, when the entry holds one.
pub open spec fn u64_field(entries: Seq<(String, Json)>, key: Seq<char>) -> Option<u64> {
    match lookup_entries(entries, key) {
        Some(Json::Num(o)) => o,
        _ => None,
    }
}

/// The array stored under `key`, when the entry holds one.
pub open spec fn array_field(entries: Seq<(String, Json)>, key: Seq<char>) -> Option<Seq<Json>> {
    match lookup_entries(entries, key) {
        Some(Json::Array(a)) => Some(a@),
        _ => None,
    }
}

/// The texts of the `name` fields of the player objects, in order, skipping
/// elements that are not objects or have no string `name`.
pub open spec fn collect_names(items: Seq<Json>) -> Seq<Seq<char>>
    decreases items.len(),
{
    if items.len() == 0 {
        Seq::empty()
    } else {
        let rest = collect_names(items.drop_last());
        match items.last() {
            Json::Object(e) => match lookup_entries(e@, "name"@) {
                Some(Json::Str(s)) => rest.push(s@),
                _ => rest,
            },
            _ => rest,
        }
    }
}

/// The text of an optional string.
pub open spec fn opt_view(o: Option<String>) -> Option<Seq<char>> {
    match o {
        Some(s) => Some(s@),
        None => None,
    }
}

/// How a failed decode of a subprocess backend's answer reads: the error
/// entry's text when it is a string, a fixed placeholder otherwise. The
/// placeholder is deliberate: the document model keeps only what the field
/// mapping reads (for numbers, just their `u64` value), so a non-string
/// error value cannot be rendered back faithfully.
pub open spec fn error_text(j: Json) -> Seq<char> {
    match j {
        Json::Str(s) => s@,
        _ => "unsupported error value"@,
    }
}

fn error_text_of(j: &Json) -> (r: String)
    ensures
        r@ == error_text(*j),
{
    match j {
        Json::Str(s) => s.clone(),
        _ => String::from_str("unsupported error value"),
    }
}

/// Collects the player names of a `players` array.
fn collect_player_names(items: &Vec<Json>) -> (r: Vec<String>)
    ensures
        texts_of(r@) == collect_names(items@),
{
    let mut r: Vec<String> = Vec::new();
    let mut i: usize = 0;
    proof {
        assert(items@.take(0) =~= Seq::<Json>::empty());
        assert(texts_of(r@) =~= Seq::<Seq<char>>::empty());
    }
    while i < items.len()
        invariant
            i <= items@.len(),
            texts_of(r@) == collect_names(items@.take(i as int)),
        decreases items@.len() - i,
    {
        let ghost pre = r@;
        proof {
            assert(items@.take(i as int + 1).drop_last() =~= items@.take(i as int));
            assert(items@.take(i as int + 1).last() == items@[i as int]);
        }
        match &items[i] {
            Json::Object(e) => {
                match lookup(e, "name") {
                    Some(j) => {
                        match j {
                            Json::Str(s) => {
                                r.push(s.clone());
                                proof {
                                    assert(texts_of(r@) =~= texts_of(pre).push(s@));
                                }
                            },
                            _ => {},
                        }
                    },
                    None => {},
                }
            },
            _ => {},
        }
        i = i + 1;
    }
    proof {
        assert(items@.take(items@.len() as int) =~= items@);
    }
    r
}

impl CommonValue {
    /// Decodes a subprocess backend's structured answer: the document must
    /// be an object; an `error` entry fails the decode with its text; the
    /// well-known keys `name`, `map`, `password`, `players` (its length and
    /// its elements' `name` fields) and `maxplayers` fill the normalized
    /// response.
    pub fn try_from_node(v: &Json) -> (r: Result<CommonValue, Error>)
        ensures
            !(v is Object) ==> (r matches Err(Error::Message(m)) && m@
                == "Node response is not an object"@),
            v matches Json::Object(entries) ==> match lookup_entries(entries@, "error"@) {
                Some(e) => (r matches Err(Error::Message(m)) && m@ == error_text(e)),
                None => (r matches Ok(c) && {
                    &&& opt_view(c.name) == str_field(entries@, "name"@)
                    &&& opt_view(c.map) == str_field(entries@, "map"@)
                    &&& c.has_password == bool_field(entries@, "password"@)
                    &&& c.players_online == match array_field(entries@, "players"@) {
                        Some(a) => Some(a.len() as u64),
                        None => None::<u64>,
                    }
                    &&& c.players_maximum == u64_field(entries@, "maxplayers"@)
                    &&& texts_of(c.player_names@) == match array_field(entries@, "players"@) {
                        Some(a) => dedup_texts(collect_names(a)),
                        None => Seq::<Seq<char>>::empty(),
                    }
                }),
            },
    {
        let entries = match v {
            Json::Object(e) => e,
            _ => {
                return Err(Error::Message(String::from_str("Node response is not an object")));
            },
        };

        match lookup(entries, "error") {
            Some(e) => {
                return Err(Error::Message(error_text_of(e)));
            },
            None => {},
        }

        let name = match lookup(entries, "name") {
            Some(Json::Str(s)) => Some(s.clone()),
            _ => None,
        };
        let map = match lookup(entries, "map") {
            Some(Json::Str(s)) => Some(s.clone()),
            _ => None,
        };
        let has_password = match lookup(entries, "password") {
            Some(Json::Bool(b)) => Some(*b),
            _ => None,
        };
        let players_online = match lookup(entries, "players") {
            Some(Json::Array(a)) => Some(a.len() as u64),
            _ => None,
        };
        let players_maximum = match lookup(entries, "maxplayers") {
            Some(Json::Num(o)) => *o,
            _ => None,
        };
        let player_names = match lookup(entries, "players") {
            Some(Json::Array(a)) => {
                let all = collect_player_names(a);
                dedup_strings(&all)
            },
            _ => Vec::new(),
        };
        proof {
            if !(array_field(entries@, "players"@) is Some) {
                assert(texts_of(Seq::<String>::empty()) =~= Seq::<Seq<char>>::empty());
            }
        }

        Ok(CommonValue { name, map, has_password, players_online, players_maximum, player_names })
    }
}

/// The strings of `v` whose text does not appear in `w`, in order.
pub open spec fn texts_not_in(v: Seq<String>, w: Seq<String>) -> Seq<String>
    decreases v.len(),
{
    if v.len() == 0 {
        Seq::empty()
    } else {
        let rest = texts_not_in(v.drop_last(), w);
        if text_in(w, v.last()@) {
            rest
        } else {
            rest.push(v.last())
        }
    }
}

/// A field-by-field comparison of two normalized responses: which scalar
/// fields differ, and the two sides of the player-name set difference.
pub struct ValueDifference {
    pub name_differs: bool,
    pub map_differs: bool,
    pub has_password_differs: bool,
    pub players_online_differs: bool,
    pub players_maximum_differs: bool,
    /// Names of `self` that `other` lacks.
    pub missing_names: Vec<String>,
    /// Names of `other` that `self` lacks.
    pub extra_names: Vec<String>,
}

fn names_not_in(v: &Vec<String>, w: &Vec<String>) -> (r: Vec<String>)
    ensures
        r@ == texts_not_in(v@, w@),
{
    let mut r: Vec<String> = Vec::new();
    let mut i: usize = 0;
    proof {
        assert(v@.take(0) =~= Seq::<String>::empty());
        assert(r@ =~= texts_not_in(v@.take(0), w@));
    }
    while i < v.len()
        invariant
            i <= v@.len(),
            r@ == texts_not_in(v@.take(i as int), w@),
        decreases v@.len() - i,
    {
        proof {
            assert(v@.take(i as int + 1).drop_last() =~= v@.take(i as int));
            assert(v@.take(i as int + 1).last() == v@[i as int]);
        }
        if !text_list_contains(w, &v[i]) {
            r.push(v[i].clone());
        }
        i = i + 1;
    }
    proof {
        assert(v@.take(v@.len() as int) =~= v@);
    }
    r
}

impl CommonValue {
    /// Compares two responses field by field: a flag per scalar field, and
    /// both sides of the symmetric difference of the player-name sets.
    pub fn difference(&self, other: &CommonValue) -> (r: ValueDifference)
        ensures
            r.name_differs == !opt_text_eq(self.name, other.name),
            r.map_differs == !opt_text_eq(self.map, other.map),
            r.has_password_differs == (self.has_password != other.has_password),
            r.players_online_differs == (self.players_online != other.players_online),
            r.players_maximum_differs == (self.players_maximum != other.players_maximum),
            r.missing_names@ == texts_not_in(self.player_names@, other.player_names@),
            r.extra_names@ == texts_not_in(other.player_names@, self.player_names@),
    {
        ValueDifference {
            name_differs: !opt_string_eq(&self.name, &other.name),
            map_differs: !opt_string_eq(&self.map, &other.map),
            has_password_differs: !opt_bool_eq(&self.has_password, &other.has_password),
            players_online_differs: !opt_u64_eq(&self.players_online, &other.players_online),
            players_maximum_differs: !opt_u64_eq(&self.players_maximum, &other.players_maximum),
            missing_names: names_not_in(&self.player_names, &other.player_names),
            extra_names: names_not_in(&other.player_names, &self.player_names),
        }
    }
}

} // verus!
