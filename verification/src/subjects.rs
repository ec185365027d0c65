//! The subject registry: a mapping from lowercase subject names to
//! fully-qualified protobuf type names, loaded from one or more YAML
//! sources and merged, later sources overwriting earlier ones.
//!
//! The registry is an explicitly owned value; a process that shares one
//! across threads puts it behind its own reader-writer lock, so that a
//! load never runs concurrently with a lookup.

use vstd::prelude::*;
use vstd::string::StringExecFns;
use crate::error::Error;

verus! {

/// The views of a vector of subject/schema pairs.
pub open spec fn spec_pair_views(ps: Seq<(String, String)>) -> Seq<(Seq<char>, Seq<char>)> {
    ps.map_values(|p: (String, String)| (p.0@, p.1@))
}

/// The mapping that a pair sequence denotes: pairs are added in order, so
/// a later pair with the same subject overwrites an earlier one.
pub open spec fn spec_map_of_pairs(ps: Seq<(Seq<char>, Seq<char>)>) -> Map<Seq<char>, Seq<char>>
    decreases ps.len(),
{
    if ps.len() == 0 {
        Map::empty()
    } else {
        spec_map_of_pairs(ps.drop_last()).insert(ps.last().0, ps.last().1)
    }
}

/// Keys of a pair sequence are pairwise distinct.
pub open spec fn spec_keys_distinct(ps: Seq<(Seq<char>, Seq<char>)>) -> bool {
    forall|i: int, j: int| 0 <= i < j < ps.len() ==> (#[trigger] ps[i]).0 != (#[trigger] ps[j]).0
}

/// A pair whose key matches denotes membership.
proof fn lemma_map_of_pairs_get(ps: Seq<(Seq<char>, Seq<char>)>, i: int)
    requires
        spec_keys_distinct(ps),
        0 <= i < ps.len(),
    ensures
        spec_map_of_pairs(ps).contains_key(ps[i].0),
        spec_map_of_pairs(ps)[ps[i].0] == ps[i].1,
    decreases ps.len(),
{
    if i == ps.len() - 1 {
    } else {
        assert(ps.drop_last()[i] == ps[i]);
        lemma_map_of_pairs_get(ps.drop_last(), i);
        assert(ps[i].0 != ps.last().0);
    }
}

/// A key that no pair carries is not in the mapping.
proof fn lemma_map_of_pairs_absent(ps: Seq<(Seq<char>, Seq<char>)>, k: Seq<char>)
    requires
        forall|i: int| 0 <= i < ps.len() ==> (#[trigger] ps[i]).0 != k,
    ensures
        !spec_map_of_pairs(ps).contains_key(k),
    decreases ps.len(),
{
    if ps.len() > 0 {
        assert(forall|i: int|
            0 <= i < ps.drop_last().len() ==> (#[trigger] ps.drop_last()[i]).0 != k);
        lemma_map_of_pairs_absent(ps.drop_last(), k);
        assert(ps.last() == ps[ps.len() - 1]);
    }
}

/// Updating the pair that carries a key denotes inserting over it.
proof fn lemma_map_of_pairs_update(ps: Seq<(Seq<char>, Seq<char>)>, i: int, v: Seq<char>)
    requires
        spec_keys_distinct(ps),
        0 <= i < ps.len(),
    ensures
        spec_map_of_pairs(ps.update(i, (ps[i].0, v))) == spec_map_of_pairs(ps).insert(
            ps[i].0,
            v,
        ),
    decreases ps.len(),
{
    let k = ps[i].0;
    let q = ps.update(i, (k, v));
    if i == ps.len() - 1 {
        assert(q.drop_last() =~= ps.drop_last());
        assert(q.last() == (k, v));
        assert(spec_map_of_pairs(q) == spec_map_of_pairs(ps.drop_last()).insert(k, v));
        assert(spec_map_of_pairs(ps).insert(k, v) =~= spec_map_of_pairs(ps.drop_last()).insert(
            k,
            ps.last().1,
        ).insert(k, v));
        assert(spec_map_of_pairs(ps.drop_last()).insert(k, ps.last().1).insert(k, v)
            =~= spec_map_of_pairs(ps.drop_last()).insert(k, v));
    } else {
        assert(ps.drop_last()[i] == ps[i]);
        lemma_map_of_pairs_update(ps.drop_last(), i, v);
        assert(q.drop_last() =~= ps.drop_last().update(i, (k, v)));
        assert(q.last() == ps.last());
        assert(ps.last().0 != k);
        assert(spec_map_of_pairs(q) == spec_map_of_pairs(ps.drop_last()).insert(k, v).insert(
            ps.last().0,
            ps.last().1,
        ));
        assert(spec_map_of_pairs(ps.drop_last()).insert(k, v).insert(ps.last().0, ps.last().1)
            =~= spec_map_of_pairs(ps.drop_last()).insert(ps.last().0, ps.last().1).insert(
            k,
            v,
        ));
    }
}

/// The process-wide table of well-known subjects: subject name to
/// fully-qualified protobuf type name. Entries are never removed; loads
/// only add or overwrite.
pub struct SubjectRegistry {
    entries: Vec<(String, String)>,
}

impl View for SubjectRegistry {
    type V = Map<Seq<char>, Seq<char>>;

    closed spec fn view(&self) -> Map<Seq<char>, Seq<char>> {
        spec_map_of_pairs(spec_pair_views(self.entries@))
    }
}

impl SubjectRegistry {
    /// One entry per subject. Every constructor establishes this and every
    /// method preserves it.
    pub closed spec fn wf(&self) -> bool {
        spec_keys_distinct(spec_pair_views(self.entries@))
    }

    /// An empty registry.
    pub fn new() -> (r: SubjectRegistry)
        ensures
            r@ == Map::<Seq<char>, Seq<char>>::empty(),
            r.wf(),
    {
        let entries: Vec<(String, String)> = Vec::new();
        proof {
            assert(spec_pair_views(entries@) =~= Seq::<(Seq<char>, Seq<char>)>::empty());
        }
        SubjectRegistry { entries }
    }

    /// The position of a subject's entry, if it has one.
    fn find(&self, subject: &String) -> (r: Option<usize>)
        ensures
            match r {
                Some(i) => i < self.entries@.len() && self.entries@[i as int].0@ == subject@,
                None => forall|i: int|
                    0 <= i < self.entries@.len() ==> (#[trigger] self.entries@[i]).0@
                        != subject@,
            },
    {
        let mut i: usize = 0;
        while i < self.entries.len()
            invariant
                i <= self.entries@.len(),
                forall|k: int|
                    0 <= k < i ==> (#[trigger] self.entries@[k]).0@ != subject@,
            decreases self.entries@.len() - i,
        {
            if self.entries[i].0.eq(subject) {
                return Some(i);
            }
            i = i + 1;
        }
        None
    }

    /// Whether the registry knows the subject.
    pub fn contains_key(&self, subject: &str) -> (r: bool)
        requires
            self.wf(),
        ensures
            r == self@.contains_key(subject@),
    {
        let key = subject.to_owned();
        let found = self.find(&key);
        proof {
            let views = spec_pair_views(self.entries@);
            match found {
                Some(i) => {
                    assert(views[i as int] == (self.entries@[i as int].0@,
                    self.entries@[i as int].1@));
                    lemma_map_of_pairs_get(views, i as int);
                },
                None => {
                    assert(forall|i: int|
                        0 <= i < views.len() ==> (#[trigger] views[i]).0 != subject@);
                    lemma_map_of_pairs_absent(views, subject@);
                },
            }
        }
        match found {
            Some(_) => true,
            None => false,
        }
    }

    /// The schema registered for a subject, if any.
    pub fn get(&self, subject: &str) -> (r: Option<String>)
        requires
            self.wf(),
        ensures
            match r {
                Some(t) => self@.contains_key(subject@) && self@[subject@] == t@,
                None => !self@.contains_key(subject@),
            },
    {
        let key = subject.to_owned();
        let found = self.find(&key);
        proof {
            let views = spec_pair_views(self.entries@);
            match found {
                Some(i) => {
                    assert(views[i as int] == (self.entries@[i as int].0@,
                    self.entries@[i as int].1@));
                    lemma_map_of_pairs_get(views, i as int);
                },
                None => {
                    assert(forall|i: int|
                        0 <= i < views.len() ==> (#[trigger] views[i]).0 != subject@);
                    lemma_map_of_pairs_absent(views, subject@);
                },
            }
        }
        match found {
            Some(i) => Some(self.entries[i].1.clone()),
            None => None,
        }
    }

    /// Whether the registry has no entries.
    pub fn is_empty(&self) -> (r: bool)
        requires
            self.wf(),
        ensures
            r == (self@ == Map::<Seq<char>, Seq<char>>::empty()),
    {
        proof {
            let views = spec_pair_views(self.entries@);
            if self.entries@.len() == 0 {
                assert(views =~= Seq::<(Seq<char>, Seq<char>)>::empty());
                assert(self@ =~= Map::<Seq<char>, Seq<char>>::empty());
            } else {
                lemma_map_of_pairs_get(views, views.len() - 1);
                assert(self@.contains_key(views.last().0));
                assert(self@ != Map::<Seq<char>, Seq<char>>::empty()) by {
                    if self@ == Map::<Seq<char>, Seq<char>>::empty() {
                        assert(!Map::<Seq<char>, Seq<char>>::empty().contains_key(
                            views.last().0,
                        ));
                    }
                };
            }
        }
        self.entries.len() == 0
    }

    /// Register a schema for a subject, overwriting any earlier entry.
    pub fn insert(&mut self, subject: String, schema: String)
        requires
            old(self).wf(),
        ensures
            final(self)@ == old(self)@.insert(subject@, schema@),
            final(self).wf(),
    {
        let found = self.find(&subject);
        let ghost views = spec_pair_views(self.entries@);
        match found {
            Some(i) => {
                let ghost sv = subject@;
                let ghost tv = schema@;
                self.entries[i] = (subject, schema);
                proof {
                    assert(spec_pair_views(self.entries@) =~= views.update(i as int, (sv, tv)));
                    assert(views[i as int].0 == sv);
                    assert(views.update(i as int, (sv, tv)) =~= views.update(
                        i as int,
                        (views[i as int].0, tv),
                    ));
                    lemma_map_of_pairs_update(views, i as int, tv);
                    assert(spec_keys_distinct(spec_pair_views(self.entries@)));
                }
            },
            None => {
                let ghost sv = subject@;
                let ghost tv = schema@;
                self.entries.push((subject, schema));
                proof {
                    assert(spec_pair_views(self.entries@) =~= views.push((sv, tv)));
                    assert(spec_pair_views(self.entries@).drop_last() =~= views);
                    assert(spec_keys_distinct(spec_pair_views(self.entries@))) by {
                        let nv = spec_pair_views(self.entries@);
                        assert(forall|i: int| 0 <= i < views.len() ==> nv[i] == views[i]);
                        assert(nv[nv.len() - 1].0 == sv);
                        assert(forall|i: int|
                            0 <= i < views.len() ==> (#[trigger] views[i]).0 != sv);
                    };
                }
            },
        }
    }

    /// Merge another registry into this one: every entry of `other` is
    /// added, overwriting this registry's entry for the same subject.
    pub fn merge(&mut self, other: &SubjectRegistry)
        requires
            old(self).wf(),
        ensures
            final(self)@ == old(self)@.union_prefer_right(other@),
            final(self).wf(),
    {
        let ghost ovs = spec_pair_views(other.entries@);
        let mut i: usize = 0;
        proof {
            assert(spec_map_of_pairs(ovs.take(0)) =~= Map::<Seq<char>, Seq<char>>::empty());
            assert(old(self)@.union_prefer_right(spec_map_of_pairs(ovs.take(0))) =~= old(
                self,
            )@);
        }
        while i < other.entries.len()
            invariant
                i <= other.entries@.len(),
                ovs == spec_pair_views(other.entries@),
                self.wf(),
                self@ == old(self)@.union_prefer_right(spec_map_of_pairs(ovs.take(i as int))),
            decreases other.entries@.len() - i,
        {
            let subject = other.entries[i].0.clone();
            let schema = other.entries[i].1.clone();
            proof {
                assert(ovs[i as int] == (other.entries@[i as int].0@,
                other.entries@[i as int].1@));
            }
            self.insert(subject, schema);
            proof {
                let t1 = ovs.take(i as int);
                let t2 = ovs.take(i + 1);
                assert(t2.drop_last() =~= t1);
                assert(t2.last() == ovs[i as int]);
                assert(spec_map_of_pairs(t2) == spec_map_of_pairs(t1).insert(
                    ovs[i as int].0,
                    ovs[i as int].1,
                ));
                assert(old(self)@.union_prefer_right(spec_map_of_pairs(t1)).insert(
                    ovs[i as int].0,
                    ovs[i as int].1,
                ) =~= old(self)@.union_prefer_right(spec_map_of_pairs(t2)));
            }
            i = i + 1;
        }
        proof {
            assert(ovs.take(ovs.len() as int) =~= ovs);
        }
    }

    /// Build a registry from subject/schema pairs, in order: a later pair
    /// with the same subject overwrites an earlier one.
    pub fn from_pairs(pairs: Vec<(String, String)>) -> (r: SubjectRegistry)
        ensures
            r@ == spec_map_of_pairs(spec_pair_views(pairs@)),
            r.wf(),
    {
        let ghost pvs = spec_pair_views(pairs@);
        let mut reg = SubjectRegistry::new();
        let mut i: usize = 0;
        proof {
            assert(spec_map_of_pairs(pvs.take(0)) =~= Map::<Seq<char>, Seq<char>>::empty());
        }
        while i < pairs.len()
            invariant
                i <= pairs@.len(),
                pvs == spec_pair_views(pairs@),
                reg.wf(),
                reg@ == spec_map_of_pairs(pvs.take(i as int)),
            decreases pairs@.len() - i,
        {
            let subject = pairs[i].0.clone();
            let schema = pairs[i].1.clone();
            proof {
                assert(pvs[i as int] == (pairs@[i as int].0@, pairs@[i as int].1@));
            }
            reg.insert(subject, schema);
            proof {
                let t1 = pvs.take(i as int);
                let t2 = pvs.take(i + 1);
                assert(t2.drop_last() =~= t1);
                assert(t2.last() == pvs[i as int]);
            }
            i = i + 1;
        }
        proof {
            assert(pvs.take(pvs.len() as int) =~= pvs);
        }
        reg
    }

    /// A snapshot copy of the whole registry, not a live view.
    pub fn snapshot(&self) -> (r: SubjectRegistry)
        requires
            self.wf(),
        ensures
            r@ == self@,
            r.wf(),
    {
        let mut entries: Vec<(String, String)> = Vec::new();
        let mut i: usize = 0;
        while i < self.entries.len()
            invariant
                i <= self.entries@.len(),
                spec_pair_views(entries@) =~= spec_pair_views(self.entries@).take(i as int),
            decreases self.entries@.len() - i,
        {
            let subject = self.entries[i].0.clone();
            let schema = self.entries[i].1.clone();
            let ghost old_entries = entries@;
            let ghost sv = subject@;
            let ghost tv = schema@;
            entries.push((subject, schema));
            proof {
                let svs = spec_pair_views(self.entries@);
                assert(sv == self.entries@[i as int].0@ && tv == self.entries@[i as int].1@);
                assert(spec_pair_views(entries@) =~= spec_pair_views(old_entries).push((sv, tv)));
                assert(svs.take(i + 1) =~= svs.take(i as int).push(svs[i as int]));
                assert(svs[i as int] == (sv, tv));
                assert(spec_pair_views(entries@) =~= svs.take(i + 1));
            }
            i = i + 1;
        }
        proof {
            let svs = spec_pair_views(self.entries@);
            assert(svs.take(svs.len() as int) =~= svs);
            assert(spec_keys_distinct(spec_pair_views(entries@)));
        }
        SubjectRegistry { entries }
    }
}

/// The parse of a YAML text as a flat subject-to-type-name mapping; `None`
/// when the text is not such a mapping. The result depends on the text
/// alone.
pub uninterp spec fn spec_yaml_subjects(s: Seq<char>) -> Option<Map<Seq<char>, Seq<char>>>;

/// Relies on `serde_yaml::from_str::<HashMap<String, String>>`: parses a
/// flat YAML mapping of strings to strings. The pairs come back in no
/// fixed order, but their keys are pairwise distinct and, read as a
/// mapping, they are a function of the text alone.
#[verifier::external_body]
fn parse_subject_mapping(yaml: &str) -> (r: Result<Vec<(String, String)>, Error>)
    ensures
        r matches Ok(v) ==> {
            &&& spec_yaml_subjects(yaml@) matches Some(m) && spec_map_of_pairs(
                spec_pair_views(v@),
            ) == m
            &&& spec_keys_distinct(spec_pair_views(v@))
        },
        r matches Err(e) ==> spec_yaml_subjects(yaml@) is None && e is ConfigSourceError,
{
    match serde_yaml::from_str::<std::collections::HashMap<String, String>>(yaml) {
        Ok(m) => Ok(m.into_iter().collect()),
        Err(e) => Err(Error::ConfigSourceError(e.to_string())),
    }
}

/// Load subjects from one YAML source: a flat mapping of subject name to
/// protobuf type name. A malformed source is rejected whole; no partial
/// table is produced.
pub fn load_subjects_from_str(yaml: &str) -> (r: Result<SubjectRegistry, Error>)
    ensures
        match r {
            Ok(reg) => spec_yaml_subjects(yaml@) == Some(reg@) && reg.wf(),
            Err(e) => spec_yaml_subjects(yaml@) is None && e is ConfigSourceError,
        },
{
    match parse_subject_mapping(yaml) {
        Ok(pairs) => Ok(SubjectRegistry::from_pairs(pairs)),
        Err(e) => Err(e),
    }
}

/// Check whether a subject is well-known to the registry.
pub fn is_subject_well_known(registry: &SubjectRegistry, subject: &str) -> (r: bool)
    requires
        registry.wf(),
    ensures
        r == registry@.contains_key(subject@),
{
    registry.contains_key(subject)
}

/// Get the protobuf type name registered for a subject.
pub fn get_subject_schema(registry: &SubjectRegistry, subject: &str) -> (r: Option<String>)
    requires
        registry.wf(),
    ensures
        match r {
            Some(t) => registry@.contains_key(subject@) && registry@[subject@] == t@,
            None => !registry@.contains_key(subject@),
        },
{
    registry.get(subject)
}

/// A snapshot copy of all well-known subjects, not a live view.
pub fn get_all_subjects(registry: &SubjectRegistry) -> (r: SubjectRegistry)
    requires
        registry.wf(),
    ensures
        r@ == registry@,
        r.wf(),
{
    registry.snapshot()
}

/// The bundled default subjects, as subject/type-name pairs in load order.
pub open spec fn spec_bundled_pairs() -> Seq<(Seq<char>, Seq<char>)> {
    seq![
        ("raw"@, "keelson.TimestampedBytes"@),
        ("raw_bytes"@, "keelson.TimestampedBytes"@),
        ("raw_string"@, "keelson.TimestampedString"@),
        ("log"@, "keelson.TimestampedString"@),
        ("location_fix"@, "foxglove.LocationFix"@),
        ("heading_true_north_deg"@, "keelson.TimestampedFloat"@),
        ("lever_position_pct"@, "keelson.TimestampedFloat"@),
        ("propeller_rate_rpm"@, "keelson.TimestampedFloat"@),
        ("rudder_angle_deg"@, "keelson.TimestampedFloat"@),
        ("speed_over_ground_knots"@, "keelson.TimestampedFloat"@),
        ("course_over_ground_deg"@, "keelson.TimestampedFloat"@),
        ("compressed_image"@, "foxglove.CompressedImage"@),
        ("point_cloud"@, "foxglove.PointCloud"@),
    ]
}

/// Load the bundled default subjects.
pub fn load_bundled_subjects() -> (r: SubjectRegistry)
    ensures
        r@ == spec_map_of_pairs(spec_bundled_pairs()),
        r.wf(),
{
    let mut pairs: Vec<(String, String)> = Vec::new();
    pairs.push((String::from_str("raw"), String::from_str("keelson.TimestampedBytes")));
    pairs.push((String::from_str("raw_bytes"), String::from_str("keelson.TimestampedBytes")));
    pairs.push((String::from_str("raw_string"), String::from_str("keelson.TimestampedString")));
    pairs.push((String::from_str("log"), String::from_str("keelson.TimestampedString")));
    pairs.push((String::from_str("location_fix"), String::from_str("foxglove.LocationFix")));
    pairs.push(
        (String::from_str("heading_true_north_deg"), String::from_str("keelson.TimestampedFloat")),
    );
    pairs.push(
        (String::from_str("lever_position_pct"), String::from_str("keelson.TimestampedFloat")),
    );
    pairs.push(
        (String::from_str("propeller_rate_rpm"), String::from_str("keelson.TimestampedFloat")),
    );
    pairs.push(
        (String::from_str("rudder_angle_deg"), String::from_str("keelson.TimestampedFloat")),
    );
    pairs.push(
        (String::from_str("speed_over_ground_knots"), String::from_str("keelson.TimestampedFloat")),
    );
    pairs.push(
        (String::from_str("course_over_ground_deg"), String::from_str("keelson.TimestampedFloat")),
    );
    pairs.push(
        (String::from_str("compressed_image"), String::from_str("foxglove.CompressedImage")),
    );
    pairs.push((String::from_str("point_cloud"), String::from_str("foxglove.PointCloud")));
    proof {
        assert(spec_pair_views(pairs@) =~= spec_bundled_pairs());
    }
    SubjectRegistry::from_pairs(pairs)
}

} // verus!
