//! The prediction store: the confidence vector of each sample.

use vstd::prelude::*;

use crate::classification::table::lists;
use crate::classification::table::name_views;
use crate::classification::table::KeyedTable;
use crate::errors::image_not_present_error;
use crate::errors::Error;
use crate::errors::ErrorView;
use crate::utils::onehot::ClassIndex;
use crate::utils::order::Ranked;
use crate::utils::topk::lemma_top_k_selects;
use crate::utils::topk::ranks_of;
use crate::utils::topk::top_k_outcome;
use crate::utils::topk::TopK;

verus! {

/// What a prediction store holds: the number of classes, fixed when the
/// store is made, and the confidence vector of each sample.
#[verifier::reject_recursive_types(T1)]
#[verifier::reject_recursive_types(T2)]
pub struct OutputModel<T1, T2> {
    pub num_classes: T1,
    pub scores: Map<Seq<char>, Seq<T2>>,
}

impl<T1: ClassIndex, T2> OutputModel<T1, T2> {
    /// The store without samples.
    pub open spec fn empty(num_classes: T1) -> Self {
        OutputModel { num_classes, scores: Map::empty() }
    }

    /// The store holds finitely many samples, and every confidence vector
    /// has one score for each class.
    pub open spec fn valid(self) -> bool {
        &&& self.scores.dom().finite()
        &&& forall|key: Seq<char>| #[trigger]
            self.scores.contains_key(key) ==> self.scores[key].len() == self.num_classes.class()
    }

    /// Whether the store holds a confidence vector for `key`.
    pub open spec fn contains(self, key: Seq<char>) -> bool {
        self.scores.contains_key(key)
    }

    /// The number of samples.
    pub open spec fn count(self) -> nat {
        self.scores.dom().len()
    }

    /// The store in which `vector` is the confidence vector of `key`,
    /// whatever it was before.
    pub open spec fn put(self, key: Seq<char>, vector: Seq<T2>) -> Self {
        OutputModel { scores: self.scores.insert(key, vector), ..self }
    }

    /// The store after `vector` was added for `key`, in place of what the
    /// store had for `key` if it had anything, or `DimensionMismatch`
    /// where `vector` does not have one score for each class.
    pub open spec fn add(self, key: Seq<char>, vector: Seq<T2>) -> Result<Self, ErrorView> {
        if vector.len() != self.num_classes.class() {
            Err(ErrorView::DimensionMismatch { found: vector.len() as usize })
        } else {
            Ok(self.put(key, vector))
        }
    }

    /// The confidence vector of `key`, or `NotFound`.
    pub open spec fn get(self, key: Seq<char>) -> Result<Seq<T2>, ErrorView> {
        if self.contains(key) {
            Ok(self.scores[key])
        } else {
            Err(ErrorView::NotFound { key })
        }
    }

    /// Adding a confidence vector keeps a valid store valid.
    pub proof fn lemma_add_keeps_valid(self, key: Seq<char>, vector: Seq<T2>)
        requires
            self.valid(),
            self.add(key, vector) is Ok,
        ensures
            self.add(key, vector)->Ok_0.valid(),
            self.add(key, vector)->Ok_0.count() == if self.contains(key) {
                self.count()
            } else {
                self.count() + 1
            },
    {
        let after = self.add(key, vector)->Ok_0;
        assert(after.scores.dom() =~= self.scores.dom().insert(key));
    }

    /// A vector with one score for each class is accepted, and is then the
    /// confidence vector that the store has for its key.
    pub proof fn lemma_add_then_get(self, key: Seq<char>, vector: Seq<T2>)
        requires
            vector.len() == self.num_classes.class(),
        ensures
            self.add(key, vector) is Ok,
            self.add(key, vector)->Ok_0.contains(key),
            self.add(key, vector)->Ok_0.get(key) == Ok::<Seq<T2>, ErrorView>(vector),
    {
    }

    /// A vector that does not have one score for each class is refused
    /// with `DimensionMismatch`.
    pub proof fn lemma_add_wrong_width(self, key: Seq<char>, vector: Seq<T2>)
        requires
            vector.len() != self.num_classes.class(),
        ensures
            self.add(key, vector) == Err::<Self, ErrorView>(
                ErrorView::DimensionMismatch { found: vector.len() as usize },
            ),
    {
    }
}

impl<T1: ClassIndex, T2: Ranked> OutputModel<T1, T2> {
    /// What a Top-K request for `k` classes of the sample `key` returns:
    /// `NotFound` where the store has no such sample, else what
    /// [`top_k_outcome`] says of the ranks of its scores.
    pub open spec fn top_k_outcome(self, key: Seq<char>, k: usize, result: Result<Vec<usize>, Error>) -> bool {
        match self.get(key) {
            Ok(vector) => top_k_outcome(ranks_of(vector), k, result),
            Err(expected) => {
                &&& result matches Err(e)
                &&& e@ == expected
            },
        }
    }

    /// A Top-K request on a sample of a valid store succeeds for every `k`
    /// up to the number of classes and fails with `InvalidArgument` for
    /// every greater `k`. Where it succeeds it returns `k` different
    /// classes, and the score of each of them is at least the score of any
    /// class that is not returned.
    pub proof fn lemma_top_k_of_sample(self, key: Seq<char>, k: usize, result: Result<Vec<usize>, Error>)
        requires
            self.valid(),
            self.contains(key),
            self.top_k_outcome(key, k, result),
        ensures
            k <= self.num_classes.class() ==> {
                &&& result matches Ok(picked)
                &&& picked@.len() == k
                &&& picked@.no_duplicates()
                &&& forall|a: int| 0 <= a < k ==> 0 <= (#[trigger] picked@[a]) < self.num_classes.class()
                &&& forall|a: int, j: usize|
                    0 <= a < k && j < self.num_classes.class() && !(#[trigger] picked@.contains(j))
                        ==> self.scores[key][(#[trigger] picked@[a]) as int].rank()
                        >= self.scores[key][j as int].rank()
            },
            k > self.num_classes.class() ==> {
                &&& result matches Err(e)
                &&& e@ == (ErrorView::InvalidArgument { k, len: self.num_classes.class() as usize })
            },
    {
        let vector = self.scores[key];
        if let Ok(picked) = result {
            lemma_top_k_selects(ranks_of(vector), k as int, picked@);
        }
    }
}

/// The confidence vectors that a classifier gave for the samples of a
/// dataset, by sample key.
///
/// The number of classes is fixed when the store is made, and every
/// confidence vector has one score for each class. Adding a vector for a
/// key that is present replaces the vector; nothing is removed. The view
/// is an [`OutputModel`], which is always [valid](OutputModel::valid).
#[verifier::reject_recursive_types(T1)]
#[verifier::reject_recursive_types(T2)]
pub struct ClassificationOutput<T1: ClassIndex, T2> {
    num_classes: T1,
    data: KeyedTable<Vec<T2>>,
}

impl<T1: ClassIndex, T2> View for ClassificationOutput<T1, T2> {
    type V = OutputModel<T1, T2>;

    closed spec fn view(&self) -> OutputModel<T1, T2> {
        OutputModel {
            num_classes: self.num_classes,
            scores: self.data@.map_values(|vector: Vec<T2>| vector@),
        }
    }
}

impl<T1: ClassIndex, T2> ClassificationOutput<T1, T2> {
    #[verifier::type_invariant]
    spec fn inv(self) -> bool {
        &&& self.data.wf()
        &&& forall|key: Seq<char>| #[trigger]
            self.data@.contains_key(key) ==> self.data@[key]@.len() == self.num_classes.class()
    }

    /// A store whose parts are as the invariant of the type says has a
    /// valid model.
    proof fn lemma_valid(self)
        requires
            self.inv(),
        ensures
            self@.valid(),
            self@.scores.dom() == self.data@.dom(),
    {
        self.data.lemma_finite();
        assert(self@.scores.dom() =~= self.data@.dom());
    }

    /// A store without samples.
    pub fn new(num_classes: T1) -> (store: Self)
        ensures
            store@ == OutputModel::<T1, T2>::empty(num_classes),
    {
        let store = ClassificationOutput { num_classes, data: KeyedTable::new() };
        assert(store@.scores =~= Map::empty());
        store
    }

    /// The number of classes.
    pub fn num_classes(&self) -> (num_classes: T1)
        ensures
            num_classes == self@.num_classes,
    {
        self.num_classes
    }

    /// The number of samples.
    pub fn num_images(&self) -> (count: usize)
        ensures
            count == self@.count(),
            self@.valid(),
    {
        proof {
            use_type_invariant(self);
            self.lemma_valid();
        }
        self.data.len()
    }

    /// Whether the store has no samples.
    pub fn is_empty(&self) -> (empty: bool)
        ensures
            empty == (self@.count() == 0),
    {
        self.num_images() == 0
    }

    /// Whether the store has a confidence vector for a sample.
    pub fn image_is_present(&self, imagename: &str) -> (present: bool)
        ensures
            present == self@.contains(imagename@),
    {
        self.data.contains_key(imagename)
    }

    /// Adds the confidence vector of a sample, as [`OutputModel::add`]
    /// says. Where the vector is refused the store is unchanged.
    pub fn add(&mut self, imagename: &str, confidences: Vec<T2>) -> (result: Result<(), Error>)
        ensures
            match (result, old(self)@.add(imagename@, confidences@)) {
                (Ok(()), Ok(after)) => final(self)@ == after,
                (Err(e), Err(expected)) => e@ == expected && final(self)@ == old(self)@,
                _ => false,
            },
            final(self)@.valid(),
    {
        proof {
            use_type_invariant(&*self);
            self.lemma_valid();
        }
        if self.num_classes.to_index() != Some(confidences.len()) {
            return Err(Error::DimensionMismatch { found: confidences.len() });
        }
        let ghost vector = confidences@;
        let mut data: KeyedTable<Vec<T2>> = KeyedTable::new();
        core::mem::swap(&mut data, &mut self.data);
        data.insert(imagename.to_owned(), confidences);
        self.data = data;
        proof {
            let after = old(self)@.add(imagename@, vector)->Ok_0;
            assert(self@.scores =~= after.scores);
            old(self)@.lemma_add_keeps_valid(imagename@, vector);
        }
        Ok(())
    }

    /// The confidence vector of a sample, or `NotFound` where the store
    /// has none for it.
    pub fn confidence_for_image(&self, imagename: &str) -> (result: Result<&Vec<T2>, Error>)
        ensures
            match (result, self@.get(imagename@)) {
                (Ok(vector), Ok(expected)) => vector@ == expected,
                (Err(e), Err(expected)) => e@ == expected,
                _ => false,
            },
            self@.valid(),
    {
        proof {
            use_type_invariant(self);
            self.lemma_valid();
        }
        match self.data.get(imagename) {
            Some(vector) => Ok(vector),
            None => Err(image_not_present_error(imagename)),
        }
    }

    /// The keys of all samples, each once, in no particular order.
    pub fn list_images(&self) -> (names: Vec<&str>)
        ensures
            lists(name_views(names@), self@.scores.dom()),
            self@.valid(),
    {
        proof {
            use_type_invariant(self);
            self.lemma_valid();
        }
        self.data.keys()
    }
}

impl<T1: ClassIndex, T2: Ranked + Copy> ClassificationOutput<T1, T2> {
    /// The `k` classes with the greatest scores for a sample, the greatest
    /// first; among classes with equal scores the one with the smaller
    /// index comes first.
    ///
    /// Fails with `NotFound` where the store has no such sample, and with
    /// `InvalidArgument` where `k` is more than the number of classes.
    pub fn topk_for_image(&self, imagename: &str, k: usize) -> (result: Result<Vec<usize>, Error>)
        ensures
            self@.top_k_outcome(imagename@, k, result),
            self@.valid(),
    {
        proof {
            use_type_invariant(self);
            self.lemma_valid();
        }
        match self.data.get(imagename) {
            Some(vector) => {
                vector.top_k(k)
            },
            None => Err(image_not_present_error(imagename)),
        }
    }
}

} // verus!
