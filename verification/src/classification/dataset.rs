//! The label store: the ground-truth labels of each sample.

use vstd::prelude::*;

use crate::classification::table::lists;
use crate::classification::table::name_views;
use crate::classification::table::KeyedTable;
use crate::errors::image_not_present_error;
use crate::errors::Error;
use crate::errors::ErrorView;
use crate::utils::onehot::ClassIndex;

verus! {

/// What a label store holds: the number of classes and the kind of store,
/// both fixed when the store is made, and the labels of each sample.
#[verifier::reject_recursive_types(T1)]
pub struct DatasetModel<T1> {
    pub num_classes: T1,
    pub is_multilabel: bool,
    pub labels: Map<Seq<char>, Seq<T1>>,
}

impl<T1> DatasetModel<T1> {
    /// The store without samples.
    pub open spec fn empty(num_classes: T1, is_multilabel: bool) -> Self {
        DatasetModel { num_classes, is_multilabel, labels: Map::empty() }
    }

    /// The store holds finitely many samples, and a single-label store
    /// holds at most one label for each.
    pub open spec fn valid(self) -> bool {
        &&& self.labels.dom().finite()
        &&& !self.is_multilabel ==> forall|key: Seq<char>| #[trigger]
            self.labels.contains_key(key) ==> self.labels[key].len() <= 1
    }

    /// Whether the store holds labels for `key`.
    pub open spec fn contains(self, key: Seq<char>) -> bool {
        self.labels.contains_key(key)
    }

    /// The number of samples.
    pub open spec fn count(self) -> nat {
        self.labels.dom().len()
    }

    /// The store after `labels` were added for `key`, or why they were not:
    /// a key that is present is never given labels again, and a
    /// single-label store takes no more than one label. The labels
    /// themselves are not compared with the number of classes.
    pub open spec fn add(self, key: Seq<char>, labels: Seq<T1>) -> Result<Self, ErrorView> {
        if self.contains(key) {
            Err(ErrorView::DuplicateKey { key })
        } else if !self.is_multilabel && labels.len() > 1 {
            Err(ErrorView::MultiLabelViolation)
        } else {
            Ok(DatasetModel { labels: self.labels.insert(key, labels), ..self })
        }
    }

    /// The labels of `key`, or `NotFound`.
    pub open spec fn get(self, key: Seq<char>) -> Result<Seq<T1>, ErrorView> {
        if self.contains(key) {
            Ok(self.labels[key])
        } else {
            Err(ErrorView::NotFound { key })
        }
    }

    /// Adding labels keeps a valid store valid, and adds one sample.
    pub proof fn lemma_add_keeps_valid(self, key: Seq<char>, labels: Seq<T1>)
        requires
            self.valid(),
            self.add(key, labels) is Ok,
        ensures
            self.add(key, labels)->Ok_0.valid(),
            self.add(key, labels)->Ok_0.count() == self.count() + 1,
    {
        let after = self.add(key, labels)->Ok_0;
        assert(after.labels.dom() =~= self.labels.dom().insert(key));
    }

    /// The labels that were added for a key are the labels that the store
    /// then has for it.
    pub proof fn lemma_add_then_get(self, key: Seq<char>, labels: Seq<T1>)
        requires
            self.add(key, labels) is Ok,
        ensures
            self.add(key, labels)->Ok_0.contains(key),
            self.add(key, labels)->Ok_0.get(key) == Ok::<Seq<T1>, ErrorView>(labels),
    {
    }

    /// Once labels were added for a key, whatever is added for it again is
    /// refused as a duplicate.
    pub proof fn lemma_add_again_is_duplicate(self, key: Seq<char>, first: Seq<T1>, second: Seq<T1>)
        requires
            self.add(key, first) is Ok,
        ensures
            self.add(key, first)->Ok_0.add(key, second) == Err::<Self, ErrorView>(
                ErrorView::DuplicateKey { key },
            ),
    {
    }
}

/// A copy of `values`.
fn copy_of<T: Copy>(values: &Vec<T>) -> (copy: Vec<T>)
    ensures
        copy@ == values@,
{
    let mut copy: Vec<T> = Vec::with_capacity(values.len());
    let mut i: usize = 0;
    while i < values.len()
        invariant
            i <= values.len(),
            copy@ == values@.take(i as int),
        decreases values.len() - i,
    {
        copy.push(values[i]);
        assert(values@.take(i + 1) =~= values@.take(i as int).push(values@[i as int]));
        i += 1;
    }
    assert(values@.take(i as int) =~= values@);
    copy
}

/// The ground-truth labels of the samples of a classification dataset, by
/// sample key.
///
/// The number of classes and the kind of the store, single-label or
/// multi-label, are fixed when the store is made. A sample is given its
/// labels once; nothing is changed or removed afterwards. The view is a
/// [`DatasetModel`], which is always [valid](DatasetModel::valid).
#[verifier::reject_recursive_types(T1)]
pub struct ClassificationDataset<T1: ClassIndex> {
    num_classes: T1,
    data: KeyedTable<Vec<T1>>,
    is_multilabel: bool,
}

impl<T1: ClassIndex> View for ClassificationDataset<T1> {
    type V = DatasetModel<T1>;

    closed spec fn view(&self) -> DatasetModel<T1> {
        DatasetModel {
            num_classes: self.num_classes,
            is_multilabel: self.is_multilabel,
            labels: self.data@.map_values(|labels: Vec<T1>| labels@),
        }
    }
}

impl<T1: ClassIndex> ClassificationDataset<T1> {
    #[verifier::type_invariant]
    spec fn inv(self) -> bool {
        &&& self.data.wf()
        &&& !self.is_multilabel ==> forall|key: Seq<char>| #[trigger]
            self.data@.contains_key(key) ==> self.data@[key]@.len() <= 1
    }

    /// A store whose parts are as the invariant of the type says has a
    /// valid model.
    proof fn lemma_valid(self)
        requires
            self.inv(),
        ensures
            self@.valid(),
            self@.labels.dom() == self.data@.dom(),
    {
        self.data.lemma_finite();
        assert(self@.labels.dom() =~= self.data@.dom());
    }

    /// A store without samples.
    pub fn new(num_classes: T1, is_multilabel: bool) -> (store: Self)
        ensures
            store@ == DatasetModel::empty(num_classes, is_multilabel),
    {
        let store = ClassificationDataset { num_classes, data: KeyedTable::new(), is_multilabel };
        assert(store@.labels =~= Map::empty());
        store
    }

    /// Adds the labels of a sample, as [`DatasetModel::add`] says. The
    /// store keeps a copy of `category_labels`. Where the labels are
    /// refused the store is unchanged.
    pub fn add(&mut self, imagename: &str, category_labels: &Vec<T1>) -> (result: Result<(), Error>)
        ensures
            match (result, old(self)@.add(imagename@, category_labels@)) {
                (Ok(()), Ok(after)) => final(self)@ == after,
                (Err(e), Err(expected)) => e@ == expected && final(self)@ == old(self)@,
                _ => false,
            },
            final(self)@.valid(),
    {
        proof {
            use_type_invariant(&*self);
            self.lemma_valid();
        }
        if self.image_is_present(imagename) {
            return Err(Error::DuplicateKey { key: imagename.to_owned() });
        }
        if !self.is_multilabel && category_labels.len() > 1 {
            return Err(Error::MultiLabelViolation);
        }
        let mut data: KeyedTable<Vec<T1>> = KeyedTable::new();
        core::mem::swap(&mut data, &mut self.data);
        data.insert(imagename.to_owned(), copy_of(category_labels));
        self.data = data;
        proof {
            let after = old(self)@.add(imagename@, category_labels@)->Ok_0;
            assert(self@.labels =~= after.labels);
            old(self)@.lemma_add_keeps_valid(imagename@, category_labels@);
        }
        Ok(())
    }

    /// The labels of a sample, or `NotFound` where the store has none for
    /// it.
    pub fn get_gt(&self, imagename: &str) -> (result: Result<&Vec<T1>, Error>)
        ensures
            match (result, self@.get(imagename@)) {
                (Ok(labels), Ok(expected)) => labels@ == expected,
                (Err(e), Err(expected)) => e@ == expected,
                _ => false,
            },
            self@.valid(),
    {
        proof {
            use_type_invariant(self);
            self.lemma_valid();
        }
        match self.data.get(imagename) {
            Some(labels) => Ok(labels),
            None => Err(image_not_present_error(imagename)),
        }
    }

    /// Whether a sample may have more than one label.
    pub fn is_multilabel(&self) -> (multilabel: bool)
        ensures
            multilabel == self@.is_multilabel,
    {
        self.is_multilabel
    }

    /// The number of classes.
    pub fn num_classes(&self) -> (num_classes: T1)
        ensures
            num_classes == self@.num_classes,
    {
        self.num_classes
    }

    /// The number of samples.
    pub fn num_images(&self) -> (count: usize)
        ensures
            count == self@.count(),
            self@.valid(),
    {
        proof {
            use_type_invariant(self);
            self.lemma_valid();
        }
        self.data.len()
    }

    /// Whether the store has labels for a sample.
    pub fn image_is_present(&self, imagename: &str) -> (present: bool)
        ensures
            present == self@.contains(imagename@),
    {
        self.data.contains_key(imagename)
    }

    /// Whether the store has no samples.
    pub fn is_empty(&self) -> (empty: bool)
        ensures
            empty == (self@.count() == 0),
    {
        self.num_images() == 0
    }

    /// The keys of all samples, each once, in no particular order.
    pub fn list_images(&self) -> (names: Vec<&str>)
        ensures
            lists(name_views(names@), self@.labels.dom()),
            self@.valid(),
    {
        proof {
            use_type_invariant(self);
            self.lemma_valid();
        }
        self.data.keys()
    }
}

} // verus!
