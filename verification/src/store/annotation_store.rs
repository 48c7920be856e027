//! Annotations, grouped by the reading that they describe.

use crate::models::{Annotation, ReadingId};
use crate::store::grouped::{
    appended, everything, extended, extended_keys, has_key, held, keyed,
    lemma_everything_holds_what_was_appended, lemma_extended_holds_appends_in_order,
    lemma_extended_keeps_every_value, lemma_filter_by_all, lemma_filter_by_none,
    lemma_extended_by_two_callers, lemma_filter_keeps_count, lemma_same_values_same_keyed,
    lemma_woven_holds_both, lists_keys, noted, woven, GroupedLog,
};
use crate::store::StoreError;
use vstd::prelude::*;
use vstd::seq_lib::lemma_multiset_commutative;

verus! {

/// The annotations received so far.
///
/// The view maps the text of a reading's identifier to the annotations
/// inserted under it, oldest first. Every annotation is filed under the
/// reading that it describes.
pub struct AnnotationStore {
    annotations: GroupedLog<Annotation>,
}

/// What a request for annotations may ask for. A field that is `None` asks for nothing.
#[derive(Debug)]
pub struct AnnotationStoreFilter {
    pub iss: Option<String>,
    pub sub: Option<String>,
    pub iat: Option<String>,
    pub jti: Option<String>,
    pub ann: Option<String>,
}

/// The fields of a filter, in the order in which a query goes through them.
#[derive(Debug, Clone, Copy, PartialEq, Eq, Structural)]
pub enum FilterField {
    Iss,
    Ann,
    Iat,
    Jti,
    Sub,
}

impl AnnotationStoreFilter {
    /// Whether the filter asks for `field` and `annotation` has there the
    /// very text that is asked for.
    pub open spec fn accepts(&self, field: FilterField, annotation: Annotation) -> bool {
        let payload = annotation.annotation.payload;
        match field {
            FilterField::Iss => self.iss matches Some(iss) && payload.iss@ == iss@,
            FilterField::Ann => self.ann matches Some(ann) && payload.ann@ == ann@,
            FilterField::Iat => self.iat matches Some(iat) && payload.iat@ == iat@,
            FilterField::Jti => self.jti matches Some(jti) && payload.jti@ == jti@,
            FilterField::Sub => self.sub matches Some(sub) && payload.sub@ == sub@,
        }
    }

    /// `accepts` for one field, as a test on annotations.
    pub open spec fn test(&self, field: FilterField) -> spec_fn(Annotation) -> bool {
        |annotation: Annotation| self.accepts(field, annotation)
    }

    /// One where `annotation` has in `field` what the filter asks for, zero where not.
    pub open spec fn hit(&self, field: FilterField, annotation: Annotation) -> nat {
        if self.accepts(field, annotation) {
            1
        } else {
            0
        }
    }

    /// In how many fields `annotation` has what the filter asks for.
    pub open spec fn hits(&self, annotation: Annotation) -> nat {
        self.hit(FilterField::Iss, annotation) + self.hit(FilterField::Ann, annotation) + self.hit(
            FilterField::Iat,
            annotation,
        ) + self.hit(FilterField::Jti, annotation) + self.hit(FilterField::Sub, annotation)
    }

    /// What a query finds among the annotations of one reading: first those
    /// accepted for `iss`, then for `ann`, `iat`, `jti` and `sub`, each time
    /// oldest first. An annotation accepted for several fields is found once for each.
    pub open spec fn found_in(&self, annotations: Seq<Annotation>) -> Seq<Annotation> {
        annotations.filter(self.test(FilterField::Iss)) + annotations.filter(
            self.test(FilterField::Ann),
        ) + annotations.filter(self.test(FilterField::Iat)) + annotations.filter(
            self.test(FilterField::Jti),
        ) + annotations.filter(self.test(FilterField::Sub))
    }

    /// What a query finds in `store`, going through the readings in the order of `keys`.
    pub open spec fn found(
        &self,
        keys: Seq<Seq<char>>,
        store: Map<Seq<char>, Seq<Annotation>>,
    ) -> Seq<Annotation>
        decreases keys.len(),
    {
        if keys.len() == 0 {
            Seq::empty()
        } else {
            self.found(keys.drop_last(), store) + self.found_in(store[keys.last()])
        }
    }

    /// Whether `annotation` has in `field` what the filter asks for there.
    pub fn asks(&self, field: FilterField, annotation: &Annotation) -> (yes: bool)
        ensures
            yes == self.accepts(field, *annotation),
    {
        let payload = &annotation.annotation.payload;
        match field {
            FilterField::Iss => match &self.iss {
                Some(iss) => payload.iss == *iss,
                None => false,
            },
            FilterField::Ann => match &self.ann {
                Some(ann) => payload.ann == *ann,
                None => false,
            },
            FilterField::Iat => match &self.iat {
                Some(iat) => payload.iat == *iat,
                None => false,
            },
            FilterField::Jti => match &self.jti {
                Some(jti) => payload.jti == *jti,
                None => false,
            },
            FilterField::Sub => match &self.sub {
                Some(sub) => payload.sub == *sub,
                None => false,
            },
        }
    }

    /// A query finds each stored annotation once for every field in which it
    /// has what the filter asks for: not at all where it has none of it, and
    /// more than once where it has several.
    pub proof fn lemma_found_once_per_field(
        self,
        keys: Seq<Seq<char>>,
        store: Map<Seq<char>, Seq<Annotation>>,
        annotation: Annotation,
    )
        ensures
            self.found(keys, store).to_multiset().count(annotation) == self.hits(annotation)
                * everything(keys, store).to_multiset().count(annotation),
        decreases keys.len(),
    {
        broadcast use vstd::multiset::group_multiset_axioms;

        if keys.len() == 0 {
            Seq::<Annotation>::empty().to_multiset_ensures();
            assert(self.found(keys, store).to_multiset().len() == 0);
            assert(everything(keys, store).to_multiset().len() == 0);
            assert(self.found(keys, store).to_multiset().count(annotation) == 0);
            assert(everything(keys, store).to_multiset().count(annotation) == 0);
        } else {
            let group = store[keys.last()];
            self.lemma_found_once_per_field(keys.drop_last(), store, annotation);
            self.lemma_found_in_once_per_field(group, annotation);
            lemma_multiset_commutative(self.found(keys.drop_last(), store), self.found_in(group));
            lemma_multiset_commutative(everything(keys.drop_last(), store), group);
            let hits = self.hits(annotation) as int;
            let before = everything(keys.drop_last(), store).to_multiset().count(annotation) as int;
            let here = group.to_multiset().count(annotation) as int;
            assert(hits * before + hits * here == hits * (before + here)) by (nonlinear_arith);
        }
    }

    /// Among the annotations of one reading a query finds each once for every
    /// field in which it has what the filter asks for.
    pub proof fn lemma_found_in_once_per_field(
        self,
        annotations: Seq<Annotation>,
        annotation: Annotation,
    )
        ensures
            self.found_in(annotations).to_multiset().count(annotation) == self.hits(annotation)
                * annotations.to_multiset().count(annotation),
    {
        broadcast use vstd::multiset::group_multiset_axioms;

        let by_iss = annotations.filter(self.test(FilterField::Iss));
        let by_ann = annotations.filter(self.test(FilterField::Ann));
        let by_iat = annotations.filter(self.test(FilterField::Iat));
        let by_jti = annotations.filter(self.test(FilterField::Jti));
        let by_sub = annotations.filter(self.test(FilterField::Sub));
        lemma_filter_keeps_count(annotations, self.test(FilterField::Iss), annotation);
        lemma_filter_keeps_count(annotations, self.test(FilterField::Ann), annotation);
        lemma_filter_keeps_count(annotations, self.test(FilterField::Iat), annotation);
        lemma_filter_keeps_count(annotations, self.test(FilterField::Jti), annotation);
        lemma_filter_keeps_count(annotations, self.test(FilterField::Sub), annotation);
        lemma_multiset_commutative(by_iss, by_ann);
        lemma_multiset_commutative(by_iss + by_ann, by_iat);
        lemma_multiset_commutative(by_iss + by_ann + by_iat, by_jti);
        lemma_multiset_commutative(by_iss + by_ann + by_iat + by_jti, by_sub);
        let count = annotations.to_multiset().count(annotation) as int;
        let iss = self.hit(FilterField::Iss, annotation) as int;
        let ann = self.hit(FilterField::Ann, annotation) as int;
        let iat = self.hit(FilterField::Iat, annotation) as int;
        let jti = self.hit(FilterField::Jti, annotation) as int;
        let sub = self.hit(FilterField::Sub, annotation) as int;
        assert(iss * count == by_iss.to_multiset().count(annotation)) by (nonlinear_arith)
            requires
                iss == 0 && by_iss.to_multiset().count(annotation) == 0 || iss == 1
                    && by_iss.to_multiset().count(annotation) == count,
        ;
        assert(ann * count == by_ann.to_multiset().count(annotation)) by (nonlinear_arith)
            requires
                ann == 0 && by_ann.to_multiset().count(annotation) == 0 || ann == 1
                    && by_ann.to_multiset().count(annotation) == count,
        ;
        assert(iat * count == by_iat.to_multiset().count(annotation)) by (nonlinear_arith)
            requires
                iat == 0 && by_iat.to_multiset().count(annotation) == 0 || iat == 1
                    && by_iat.to_multiset().count(annotation) == count,
        ;
        assert(jti * count == by_jti.to_multiset().count(annotation)) by (nonlinear_arith)
            requires
                jti == 0 && by_jti.to_multiset().count(annotation) == 0 || jti == 1
                    && by_jti.to_multiset().count(annotation) == count,
        ;
        assert(sub * count == by_sub.to_multiset().count(annotation)) by (nonlinear_arith)
            requires
                sub == 0 && by_sub.to_multiset().count(annotation) == 0 || sub == 1
                    && by_sub.to_multiset().count(annotation) == count,
        ;
        assert((iss + ann + iat + jti + sub) * count == iss * count + ann * count + iat * count
            + jti * count + sub * count) by (nonlinear_arith);
    }

    /// A query over a store that was new and has had `annotations` inserted
    /// finds every one of them once for each field in which it has what the
    /// filter asks for, and nothing else.
    pub proof fn lemma_found_among_inserted(
        self,
        annotations: Seq<Annotation>,
        annotation: Annotation,
    )
        ensures
            self.found(inserted_keys(annotations), inserted(annotations)).to_multiset().count(
                annotation,
            ) == self.hits(annotation) * annotations.to_multiset().count(annotation),
    {
        broadcast use vstd::multiset::group_multiset_axioms;

        let none = Seq::<Seq<char>>::empty();
        let new = Map::<Seq<char>, Seq<Annotation>>::empty();
        self.lemma_found_once_per_field(
            inserted_keys(annotations),
            inserted(annotations),
            annotation,
        );
        lemma_everything_holds_what_was_appended(none, new, annotations, reading_of());
        Seq::<Annotation>::empty().to_multiset_ensures();
        assert(everything(none, new).to_multiset().count(annotation) == 0);
    }

    /// A filter that asks for `sub` alone finds exactly the stored annotations
    /// with that `sub`, each once, in the order in which the store holds
    /// them, whatever their other fields are.
    pub proof fn lemma_found_by_sub_alone(
        self,
        keys: Seq<Seq<char>>,
        store: Map<Seq<char>, Seq<Annotation>>,
    )
        requires
            self.iss is None,
            self.ann is None,
            self.iat is None,
            self.jti is None,
        ensures
            self.found(keys, store) == everything(keys, store).filter(self.test(FilterField::Sub)),
        decreases keys.len(),
    {
        if keys.len() == 0 {
            reveal(Seq::filter);
        } else {
            let group = store[keys.last()];
            self.lemma_found_by_sub_alone(keys.drop_last(), store);
            lemma_filter_by_none(group, self.test(FilterField::Iss));
            lemma_filter_by_none(group, self.test(FilterField::Ann));
            lemma_filter_by_none(group, self.test(FilterField::Iat));
            lemma_filter_by_none(group, self.test(FilterField::Jti));
            assert(self.found_in(group) =~= group.filter(self.test(FilterField::Sub)));
            Seq::filter_distributes_over_add(
                everything(keys.drop_last(), store),
                group,
                self.test(FilterField::Sub),
            );
        }
    }

    /// A filter that asks for `iss` and `sub` and nothing else finds the
    /// stored annotations that have the `iss` together with those that have
    /// the `sub`: one that has either is found, one that has both is found
    /// twice, and one that has neither is not found.
    pub proof fn lemma_found_by_iss_or_sub(
        self,
        keys: Seq<Seq<char>>,
        store: Map<Seq<char>, Seq<Annotation>>,
    )
        requires
            self.ann is None,
            self.iat is None,
            self.jti is None,
        ensures
            self.found(keys, store).to_multiset() == everything(keys, store).filter(
                self.test(FilterField::Iss),
            ).to_multiset().add(
                everything(keys, store).filter(self.test(FilterField::Sub)).to_multiset(),
            ),
    {
        broadcast use vstd::multiset::group_multiset_axioms;

        let all = everything(keys, store);
        let by_iss = all.filter(self.test(FilterField::Iss));
        let by_sub = all.filter(self.test(FilterField::Sub));
        assert forall|annotation: Annotation|
            self.found(keys, store).to_multiset().count(annotation) == by_iss.to_multiset().add(
                by_sub.to_multiset(),
            ).count(annotation) by {
            self.lemma_found_once_per_field(keys, store, annotation);
            lemma_filter_keeps_count(all, self.test(FilterField::Iss), annotation);
            lemma_filter_keeps_count(all, self.test(FilterField::Sub), annotation);
            let count = all.to_multiset().count(annotation) as int;
            let iss = self.hit(FilterField::Iss, annotation) as int;
            let sub = self.hit(FilterField::Sub, annotation) as int;
            assert((iss + sub) * count == by_iss.to_multiset().count(annotation)
                + by_sub.to_multiset().count(annotation)) by (nonlinear_arith)
                requires
                    iss == 0 && by_iss.to_multiset().count(annotation) == 0 || iss == 1
                        && by_iss.to_multiset().count(annotation) == count,
                    sub == 0 && by_sub.to_multiset().count(annotation) == 0 || sub == 1
                        && by_sub.to_multiset().count(annotation) == count,
            ;
        }
        assert(self.found(keys, store).to_multiset() =~= by_iss.to_multiset().add(
            by_sub.to_multiset(),
        ));
    }
}

impl View for AnnotationStore {
    type V = Map<Seq<char>, Seq<Annotation>>;

    closed spec fn view(&self) -> Map<Seq<char>, Seq<Annotation>> {
        self.annotations@
    }
}

/// The key under which an annotation is filed: the text of its reading's identifier.
pub open spec fn reading_of() -> spec_fn(Annotation) -> Seq<char> {
    |annotation: Annotation| annotation.reading_id@
}

/// Whether every annotation of `store` is found under the reading that it describes.
pub open spec fn filed_by_reading(store: Map<Seq<char>, Seq<Annotation>>) -> bool {
    forall|key: Seq<char>, at: int|
        store.contains_key(key) && 0 <= at < store[key].len() ==> (#[trigger] store[key][at]).reading_id@
            == key
}

/// What a store holds that was new and has had each annotation of
/// `annotations` inserted under its reading, in this order.
pub open spec fn inserted(annotations: Seq<Annotation>) -> Map<Seq<char>, Seq<Annotation>> {
    extended(Map::empty(), annotations, reading_of())
}

/// The readings that a store knows that was new and has had each annotation
/// of `annotations` inserted under its reading, in the order in which each
/// first had one.
pub open spec fn inserted_keys(annotations: Seq<Annotation>) -> Seq<Seq<char>> {
    extended_keys(Seq::empty(), annotations, reading_of())
}

/// The store knows a reading exactly if an annotation of it was inserted, and
/// then holds for it exactly the inserted annotations of that reading, in the
/// order in which they were inserted.
pub proof fn lemma_annotations_kept_in_insertion_order(
    annotations: Seq<Annotation>,
    reading: Seq<char>,
)
    ensures
        inserted(annotations).contains_key(reading) <==> exists|at: int|
            0 <= at < annotations.len() && (#[trigger] annotations[at]).reading_id@ == reading,
        held(inserted(annotations), reading) == keyed(annotations, reading_of(), reading),
{
    lemma_extended_holds_appends_in_order(Map::empty(), annotations, reading_of(), reading);
    if exists|at: int|
        0 <= at < annotations.len() && (#[trigger] annotations[at]).reading_id@ == reading {
        let at = choose|at: int|
            0 <= at < annotations.len() && (#[trigger] annotations[at]).reading_id@ == reading;
        assert(reading_of()(annotations[at]) == reading);
    }
    if exists|at: int| 0 <= at < annotations.len() && reading_of()(#[trigger] annotations[at]) == reading {
        let at = choose|at: int|
            0 <= at < annotations.len() && reading_of()(#[trigger] annotations[at]) == reading;
        assert(annotations[at].reading_id@ == reading);
    }
    assert(Seq::<Annotation>::empty() + keyed(annotations, reading_of(), reading) =~= keyed(
        annotations,
        reading_of(),
        reading,
    ));
}

/// Whatever a store holds, inserts into it, made one after the other, leave
/// under a reading what was there followed by the inserted annotations of
/// that reading, in the order of the inserts: none is lost and none overwritten.
pub proof fn lemma_inserts_follow_what_was_held(
    store: Map<Seq<char>, Seq<Annotation>>,
    annotations: Seq<Annotation>,
    reading: Seq<char>,
)
    ensures
        held(extended(store, annotations, reading_of()), reading) == held(store, reading) + keyed(
            annotations,
            reading_of(),
            reading,
        ),
        held(extended(store, annotations, reading_of()), reading).len() == held(
            store,
            reading,
        ).len() + keyed(annotations, reading_of(), reading).len(),
{
    lemma_extended_holds_appends_in_order(store, annotations, reading_of(), reading);
}

/// Whatever a store holds, inserts under one reading, made one after the
/// other, leave under that reading what was there followed by exactly the
/// inserted annotations, in the order of the inserts.
pub proof fn lemma_inserts_under_one_reading_are_all_kept(
    store: Map<Seq<char>, Seq<Annotation>>,
    annotations: Seq<Annotation>,
    reading: Seq<char>,
)
    requires
        forall|at: int|
            0 <= at < annotations.len() ==> (#[trigger] annotations[at]).reading_id@ == reading,
    ensures
        held(extended(store, annotations, reading_of()), reading) == held(store, reading)
            + annotations,
        held(extended(store, annotations, reading_of()), reading).len() == held(
            store,
            reading,
        ).len() + annotations.len(),
{
    lemma_extended_holds_appends_in_order(store, annotations, reading_of(), reading);
    lemma_filter_by_all(annotations, has_key(reading_of(), reading));
}

/// Inserts of two callers, made one at a time in whatever order they come,
/// leave under a reading what was there followed by the annotations of that
/// reading that the two inserted: all of them, those of each caller in the
/// order in which that caller inserted them.
pub proof fn lemma_inserts_of_two_callers_are_all_kept(
    store: Map<Seq<char>, Seq<Annotation>>,
    whole: Seq<Annotation>,
    one: Seq<Annotation>,
    other: Seq<Annotation>,
    reading: Seq<char>,
)
    requires
        woven(whole, one, other),
    ensures
        held(extended(store, whole, reading_of()), reading) == held(store, reading) + keyed(
            whole,
            reading_of(),
            reading,
        ),
        woven(
            keyed(whole, reading_of(), reading),
            keyed(one, reading_of(), reading),
            keyed(other, reading_of(), reading),
        ),
        held(extended(store, whole, reading_of()), reading).len() == held(store, reading).len()
            + keyed(one, reading_of(), reading).len() + keyed(other, reading_of(), reading).len(),
{
    lemma_extended_by_two_callers(store, whole, one, other, reading_of(), reading);
}

/// Inserts of two callers under one reading, made one at a time in whatever
/// order they come, leave under that reading what was there followed by
/// exactly the inserted annotations, as many as the two inserted, in the
/// order in which the inserts were made, which is for each caller the order
/// in which that caller made them.
pub proof fn lemma_inserts_of_two_callers_under_one_reading(
    store: Map<Seq<char>, Seq<Annotation>>,
    whole: Seq<Annotation>,
    one: Seq<Annotation>,
    other: Seq<Annotation>,
    reading: Seq<char>,
)
    requires
        woven(whole, one, other),
        forall|at: int| 0 <= at < whole.len() ==> (#[trigger] whole[at]).reading_id@ == reading,
    ensures
        held(extended(store, whole, reading_of()), reading) == held(store, reading) + whole,
        held(extended(store, whole, reading_of()), reading).len() == held(store, reading).len()
            + one.len() + other.len(),
        whole.to_multiset() == one.to_multiset().add(other.to_multiset()),
{
    lemma_inserts_under_one_reading_are_all_kept(store, whole, reading);
    lemma_woven_holds_both(whole, one, other);
}

/// In whatever order the inserts of several callers come to be made one
/// after the other, the store keeps every one of them. Two orders of the same
/// inserts leave the same readings known, and under each reading what was
/// there followed by the same inserted annotations, each as often, in the
/// order in which that run made them.
pub proof fn lemma_no_insert_is_lost(
    store: Map<Seq<char>, Seq<Annotation>>,
    one: Seq<Annotation>,
    other: Seq<Annotation>,
    reading: Seq<char>,
)
    requires
        one.to_multiset() == other.to_multiset(),
    ensures
        extended(store, one, reading_of()).contains_key(reading) == extended(
            store,
            other,
            reading_of(),
        ).contains_key(reading),
        held(extended(store, one, reading_of()), reading) == held(store, reading) + keyed(
            one,
            reading_of(),
            reading,
        ),
        held(extended(store, other, reading_of()), reading) == held(store, reading) + keyed(
            other,
            reading_of(),
            reading,
        ),
        keyed(one, reading_of(), reading).to_multiset() == keyed(
            other,
            reading_of(),
            reading,
        ).to_multiset(),
        keyed(one, reading_of(), reading).len() == keyed(other, reading_of(), reading).len(),
{
    lemma_extended_keeps_every_value(store, one, other, reading_of(), reading);
    lemma_extended_holds_appends_in_order(store, one, reading_of(), reading);
    lemma_extended_holds_appends_in_order(store, other, reading_of(), reading);
    lemma_same_values_same_keyed(one, other, reading_of(), reading);
}

impl AnnotationStore {
    #[verifier::type_invariant]
    spec fn filed(self) -> bool {
        filed_by_reading(self.annotations@)
    }

    /// The readings that have an annotation, in the order in which each first had one.
    pub closed spec fn keys(&self) -> Seq<Seq<char>> {
        self.annotations.keys()
    }

    /// A store without annotations.
    pub fn new() -> (store: Self)
        ensures
            store@ == Map::<Seq<char>, Seq<Annotation>>::empty(),
            store.keys() == Seq::<Seq<char>>::empty(),
    {
        AnnotationStore { annotations: GroupedLog::new() }
    }

    /// Appends `annotation` to the annotations of its reading. Always succeeds.
    pub fn insert(&mut self, reading_id: &ReadingId, annotation: Annotation) -> (done: Result<
        (),
        StoreError,
    >)
        requires
            annotation.reading_id@ == reading_id@,
        ensures
            done is Ok,
            final(self)@ == appended(old(self)@, reading_id@, annotation),
            final(self).keys() == noted(old(self).keys(), reading_id@),
    {
        proof {
            use_type_invariant(&*self);
        }
        let mut taken = AnnotationStore { annotations: GroupedLog::new() };
        std::mem::swap(self, &mut taken);
        let AnnotationStore { mut annotations } = taken;
        annotations.insert(reading_id.0.as_str(), annotation);
        *self = AnnotationStore { annotations };
        Ok(())
    }

    /// Inserts each of `annotations` under its own reading, one after the
    /// other in their order, and says how many that were.
    pub fn insert_all(&mut self, annotations: Vec<Annotation>) -> (count: usize)
        ensures
            count == annotations@.len(),
            final(self)@ == extended(old(self)@, annotations@, reading_of()),
            final(self).keys() == extended_keys(old(self).keys(), annotations@, reading_of()),
    {
        let count = annotations.len();
        let ghost all = annotations@;
        let ghost before = self@;
        let ghost keys_before = self.keys();
        for annotation in given: annotations
            invariant
                given.seq() == all,
                self@ == extended(before, all.take(given.index() as int), reading_of()),
                self.keys() == extended_keys(
                    keys_before,
                    all.take(given.index() as int),
                    reading_of(),
                ),
        {
            proof {
                assert(all.take(given.index() + 1).drop_last() =~= all.take(given.index() as int));
            }
            let reading_id = annotation.get_reading_id().clone();
            let _ = self.insert(&reading_id, annotation);
        }
        assert(all.take(all.len() as int) =~= all);
        count
    }

    /// The annotations of `reading_id`, oldest first; an error where the
    /// reading never had an annotation.
    pub fn get(&self, reading_id: &ReadingId) -> (found: Result<&Vec<Annotation>, StoreError>)
        ensures
            match found {
                Ok(annotations) => self@.contains_key(reading_id@) && annotations@
                    == self@[reading_id@],
                Err(error) => !self@.contains_key(reading_id@) && error
                    == StoreError::KeyNotPresent,
            },
            lists_keys(self.keys(), self@),
            filed_by_reading(self@),
            self@.contains_key(reading_id@) ==> self@[reading_id@].len() > 0,
    {
        proof {
            use_type_invariant(self);
        }
        match self.annotations.get(reading_id.0.as_str()) {
            Some(annotations) => Ok(annotations),
            None => Err(StoreError::KeyNotPresent),
        }
    }

    /// Every reading that has annotations, with them, in the order in which
    /// each first had one. Always succeeds.
    pub fn iter(&self) -> (all: Result<Vec<(ReadingId, &Vec<Annotation>)>, StoreError>)
        ensures
            match all {
                Ok(groups) => groups@.len() == self.keys().len() && forall|at: int|
                    0 <= at < groups@.len() ==> (#[trigger] groups@[at]).0@ == self.keys()[at]
                        && groups@[at].1@ == self@[self.keys()[at]],
                Err(_) => false,
            },
            lists_keys(self.keys(), self@),
    {
        let entries = self.annotations.entries();
        let mut groups: Vec<(ReadingId, &Vec<Annotation>)> = Vec::new();
        let mut at: usize = 0;
        while at < entries.len()
            invariant
                at <= entries@.len(),
                entries@.len() == self.keys().len(),
                forall|to: int|
                    0 <= to < entries@.len() ==> (#[trigger] entries@[to]).0@ == self.keys()[to]
                        && entries@[to].1@ == self@[self.keys()[to]],
                groups@.len() == at,
                forall|to: int|
                    0 <= to < at ==> (#[trigger] groups@[to]).0@ == self.keys()[to] && groups@[to].1@
                        == self@[self.keys()[to]],
            decreases entries@.len() - at,
        {
            let (key, annotations) = entries[at];
            groups.push((ReadingId(String::from_str(key)), annotations));
            at += 1;
        }
        Ok(groups)
    }
}

} // verus!
