//! The recipe catalog: an in-memory index of recipes keyed by their
//! normalized ids, whose mutating operations return the plan of durable file
//! operations the caller must run, in order, while it holds the collection's
//! write serializer.
//!
//! Each operation's contract carries the consistency claim: running the plan
//! against a file set that mirrored the old index yields a file set that
//! mirrors the new one.

use vstd::prelude::*;
use vstd::string::StringExecFns;
use crate::error::Error;
use crate::id::to_id_spec;
use crate::id::to_id_string;
use crate::index::Index;
use crate::index::distinct_keys;
use crate::index::map_of;
use crate::recipe::RawRecipe;
use crate::store::FileOp;
use crate::store::apply_ops;
use crate::store::spec_create;
use crate::store::spec_create_ok;
use crate::store::spec_delete;
use crate::store::spec_delete_ok;
use crate::store::spec_replace;
use crate::store::spec_replace_ok;

verus! {

/// Downgrades a storage failure to the generic internal error, so storage
/// layout details never leak to callers.
pub fn handle_io_error() -> (r: Error)
    ensures
        r == Error::Internal,
{
    Error::Internal
}

/// Computes the paths of a collection's record files.
pub struct RecipesIo(pub String);

/// A pending removal of one record file.
pub struct Delete {
    pub path: String,
}

impl RecipesIo {
    /// The file path of record `id`: the collection directory, the id, and
    /// the fixed extension.
    pub fn path_of(&self, id: &str) -> (r: String)
        ensures
            r@ == self.0@ + "/"@ + id@ + ".json"@,
    {
        let mut path = self.0.clone();
        path.append("/");
        path.append(id);
        path.append(".json");
        path
    }

    /// Prepares the removal of record `id`'s file.
    pub fn prepare_delete(&self, id: &str) -> (r: Delete)
        ensures
            r.path@ == self.0@ + "/"@ + id@ + ".json"@,
    {
        Delete { path: self.path_of(id) }
    }
}

/// The index described by a sequence of records read at startup, each keyed
/// by the id its title normalizes to; on a duplicate id the later record
/// wins.
pub open spec fn loaded_map(records: Seq<(String, RawRecipe)>) -> Map<Seq<char>, RawRecipe>
    decreases records.len(),
{
    if records.len() == 0 {
        Map::empty()
    } else {
        loaded_map(records.drop_last()).insert(
            to_id_spec(records.last().1.name@),
            records.last().1,
        )
    }
}

/// The file stems that disagree with the id their record's title normalizes
/// to — drift that is tolerated on load and only warned about.
pub open spec fn mismatched_stems(records: Seq<(String, RawRecipe)>) -> Seq<String>
    decreases records.len(),
{
    if records.len() == 0 {
        Seq::empty()
    } else {
        mismatched_stems(records.drop_last()) + (if to_id_spec(records.last().1.name@)
            == records.last().0@ {
            Seq::<String>::empty()
        } else {
            seq![records.last().0]
        })
    }
}

/// The recipe catalog.
pub struct Recipes {
    index: Index<RawRecipe>,
}

impl View for Recipes {
    type V = Map<Seq<char>, RawRecipe>;

    closed spec fn view(&self) -> Map<Seq<char>, RawRecipe> {
        self.index@
    }
}

impl Recipes {
    /// Well-formedness: the underlying index holds each id once.
    pub closed spec fn wf(&self) -> bool {
        self.index.wf()
    }

    /// The records in insertion order, as `list` hands them out.
    pub closed spec fn entries(&self) -> Seq<(String, RawRecipe)> {
        self.index.entries()
    }

    /// How the entry list and the map view of a well-formed catalog relate.
    pub proof fn lemma_inv(&self)
        requires
            self.wf(),
        ensures
            self@ == map_of(self.entries()),
            distinct_keys(self.entries()),
            self@.dom().finite(),
            self@.len() == self.entries().len(),
    {
        self.index.lemma_inv();
    }

    /// Builds the catalog from the records read at startup, keying each by
    /// the id its title normalizes to (a duplicate id keeps the later
    /// record), and reports the file stems that disagree with their record's
    /// id, for the caller to warn about.
    pub fn load_records(records: Vec<(String, RawRecipe)>) -> (r: (Recipes, Vec<String>))
        ensures
            r.0.wf(),
            r.0@ == loaded_map(records@),
            r.1@ == mismatched_stems(records@),
    {
        let ghost all = records@;
        let mut records = records;
        let total = records.len();
        let mut index: Index<RawRecipe> = Index::new();
        let mut warnings: Vec<String> = Vec::new();
        let ghost n = all.len();
        let mut i: usize = 0;
        proof {
            assert(all.subrange(0, 0) =~= Seq::<(String, RawRecipe)>::empty());
            assert(records@ =~= all.subrange(0, n as int));
        }
        while records.len() > 0
            invariant
                i <= n,
                n == all.len(),
                n == total as int,
                records@ == all.subrange(i as int, n as int),
                index.wf(),
                index@ == loaded_map(all.subrange(0, i as int)),
                warnings@ == mismatched_stems(all.subrange(0, i as int)),
            decreases records@.len(),
        {
            let ghost prefix = all.subrange(0, i as int);
            let (stem, recipe) = records.remove(0);
            proof {
                assert(all[i as int] == (stem, recipe));
                assert(all.subrange(i as int, n as int).remove(0) =~= all.subrange(
                    i as int + 1,
                    n as int,
                ));
                assert(all.subrange(0, i as int + 1).drop_last() =~= prefix);
                assert(all.subrange(0, i as int + 1).last() == (stem, recipe));
            }
            let id = to_id_string(recipe.name.as_str());
            if !(id == stem) {
                warnings.push(stem);
            }
            index.upsert(id, recipe);
            i = i + 1;
        }
        proof {
            assert(all.subrange(0, n as int) =~= all);
        }
        (Recipes { index }, warnings)
    }

    /// A snapshot of all records; never blocks on durable storage.
    pub fn list(&self) -> (r: &Vec<(String, RawRecipe)>)
        ensures
            r@ == self.entries(),
    {
        self.index.list()
    }

    /// The number of records held.
    pub fn len(&self) -> (r: usize)
        ensures
            r == self.entries().len(),
    {
        self.index.len()
    }

    /// The record under `id`, or `NotFound`.
    pub fn get(&self, id: &str) -> (r: Result<&RawRecipe, Error>)
        requires
            self.wf(),
        ensures
            (match r {
                Ok(recipe) => self@.contains_key(id@) && *recipe == self@[id@],
                Err(e) => e == Error::NotFound && !self@.contains_key(id@),
            }),
    {
        match self.index.get(id) {
            Some(recipe) => Ok(recipe),
            None => Err(Error::NotFound),
        }
    }

    /// Creates a record under `id`, failing with `AlreadyExists` — and
    /// touching nothing — when the id is taken. On success the plan writes
    /// the new record's file; run against files that mirrored the old index
    /// it yields files that mirror the new one.
    pub fn create(&mut self, id: String, recipe: RawRecipe) -> (r: Result<Vec<FileOp>, Error>)
        requires
            old(self).wf(),
        ensures
            final(self).wf(),
            final(self)@ == spec_create(old(self)@, id@, recipe),
            r is Ok <==> spec_create_ok(old(self)@, id@),
            r is Err ==> r == Err::<Vec<FileOp>, Error>(Error::AlreadyExists) && *final(self)
                == *old(self),
            r matches Ok(plan) ==> plan@.len() == 1 && (plan@[0] matches FileOp::Write(w) && w@
                == id@) && apply_ops(old(self)@, final(self)@, plan@) == final(self)@,
    {
        if self.index.contains(id.as_str()) {
            return Err(Error::AlreadyExists);
        }
        let ghost m0 = self.index@;
        let w = id.clone();
        self.index.insert(id, recipe);
        let plan = vec![FileOp::Write(w)];
        proof {
            assert(plan@ =~= seq![FileOp::Write(w)]);
            assert(plan@.drop_last() =~= Seq::<FileOp>::empty());
            assert(apply_ops(m0, self.index@, plan@.drop_last()) == m0);
            assert(plan@.last() == FileOp::Write(w));
            assert(apply_ops(m0, self.index@, plan@) =~= self.index@);
        }
        Ok(plan)
    }

    /// Deletes the record under `id`, failing with `NotFound` — and touching
    /// no file — when it is absent. On success the plan removes the record's
    /// file; run against files that mirrored the old index it yields files
    /// that mirror the new one.
    pub fn delete(&mut self, id: &str) -> (r: Result<Vec<FileOp>, Error>)
        requires
            old(self).wf(),
        ensures
            final(self).wf(),
            final(self)@ == spec_delete(old(self)@, id@),
            r is Ok <==> spec_delete_ok(old(self)@, id@),
            r is Err ==> r == Err::<Vec<FileOp>, Error>(Error::NotFound) && *final(self) == *old(
                self,
            ),
            r matches Ok(plan) ==> plan@.len() == 1 && (plan@[0] matches FileOp::Delete(d) && d@
                == id@) && apply_ops(old(self)@, final(self)@, plan@) == final(self)@,
    {
        let ghost m0 = self.index@;
        if !self.index.remove(id) {
            return Err(Error::NotFound);
        }
        let d: String = id.to_owned();
        let plan = vec![FileOp::Delete(d)];
        proof {
            assert(plan@ =~= seq![FileOp::Delete(d)]);
            assert(plan@.drop_last() =~= Seq::<FileOp>::empty());
            assert(apply_ops(m0, self.index@, plan@.drop_last()) == m0);
            assert(plan@.last() == FileOp::Delete(d));
            assert(apply_ops(m0, self.index@, plan@) =~= self.index@);
        }
        Ok(plan)
    }

    /// Replaces the record under `id` with one under `new_id`. Keeping the
    /// id overwrites in place with a single file write; a rename inserts the
    /// new id, drops the old one, and plans the write of the new file
    /// strictly before the removal of the old one; a rename onto a foreign
    /// occupied id fails with `AlreadyExists` and touches nothing.
    pub fn replace(&mut self, id: &str, new_id: String, recipe: RawRecipe) -> (r: Result<
        Vec<FileOp>,
        Error,
    >)
        requires
            old(self).wf(),
        ensures
            final(self).wf(),
            final(self)@ == spec_replace(old(self)@, id@, new_id@, recipe),
            r is Ok <==> spec_replace_ok(old(self)@, id@, new_id@),
            r is Err ==> r == Err::<Vec<FileOp>, Error>(Error::AlreadyExists) && *final(self)
                == *old(self),
            r matches Ok(plan) ==> apply_ops(old(self)@, final(self)@, plan@) == final(self)@ && (
            old(self)@.contains_key(new_id@) ==> plan@.len() == 1 && (plan@[0]
                matches FileOp::Write(w) && w@ == new_id@)) && (!old(self)@.contains_key(new_id@)
                ==> plan@.len() == 2 && (plan@[0] matches FileOp::Write(w) && w@ == new_id@) && (
            plan@[1] matches FileOp::Delete(d) && d@ == id@)),
    {
        let ghost m0 = self.index@;
        if self.index.contains(new_id.as_str()) {
            let owned: String = id.to_owned();
            if owned == new_id {
                self.index.set_value(new_id.as_str(), recipe);
                let plan = vec![FileOp::Write(new_id)];
                proof {
                    assert(plan@ =~= seq![FileOp::Write(new_id)]);
                    assert(plan@.drop_last() =~= Seq::<FileOp>::empty());
                    assert(apply_ops(m0, self.index@, plan@.drop_last()) == m0);
                    assert(plan@.last() == FileOp::Write(new_id));
                    assert(apply_ops(m0, self.index@, plan@) =~= self.index@);
                }
                Ok(plan)
            } else {
                Err(Error::AlreadyExists)
            }
        } else {
            let w = new_id.clone();
            self.index.insert(new_id, recipe);
            self.index.remove(id);
            let d: String = id.to_owned();
            let plan = vec![FileOp::Write(w), FileOp::Delete(d)];
            proof {
                let m2 = self.index@;
                assert(plan@ =~= seq![FileOp::Write(w), FileOp::Delete(d)]);
                assert(plan@.drop_last() =~= seq![FileOp::Write(w)]);
                assert(plan@.drop_last().drop_last() =~= Seq::<FileOp>::empty());
                assert(apply_ops(m0, m2, plan@.drop_last().drop_last()) == m0);
                assert(plan@.drop_last().last() == FileOp::Write(w));
                assert(apply_ops(m0, m2, plan@.drop_last()) == m0.insert(w@, m2[w@]));
                assert(plan@.last() == FileOp::Delete(d));
                assert(apply_ops(m0, m2, plan@) == m0.insert(w@, m2[w@]).remove(d@));
                assert(apply_ops(m0, m2, plan@) =~= m2);
            }
            Ok(plan)
        }
    }
}

} // verus!
