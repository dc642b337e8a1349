use vstd::prelude::*;

verus! {

/// Most points that a live series keeps before it drops its oldest ones.
pub const MAX_SERIES_POINTS: usize = 100_000;

/// How many of the oldest points a full series drops at once.
pub const SERIES_DROP: usize = MAX_SERIES_POINTS / 10;

/// `s` with `x` appended, after dropping the oldest `SERIES_DROP` items when
/// `s` already holds `MAX_SERIES_POINTS` or more.
pub open spec fn bounded_push<A>(s: Seq<A>, x: A) -> Seq<A> {
    if s.len() >= MAX_SERIES_POINTS {
        s.skip(SERIES_DROP as int).push(x)
    } else {
        s.push(x)
    }
}

/// The samples of one output variable recorded so far, as two parallel
/// columns: the simulation time of each sample and its value.
pub struct LiveSeries<T> {
    pub time: Vec<T>,
    pub value: Vec<T>,
}

impl<T> LiveSeries<T> {
    /// The two columns have the same length.
    pub open spec fn wf(&self) -> bool {
        self.time@.len() == self.value@.len()
    }

    /// An empty series.
    pub fn new() -> (r: LiveSeries<T>)
        ensures
            r.time@ == Seq::<T>::empty(),
            r.value@ == Seq::<T>::empty(),
    {
        LiveSeries { time: Vec::new(), value: Vec::new() }
    }

    /// Records the sample `v` taken at time `t`.  When the series is full,
    /// the oldest `SERIES_DROP` samples are dropped first.
    pub fn push(&mut self, t: T, v: T)
        requires
            old(self).time@.len() >= MAX_SERIES_POINTS ==> old(self).value@.len() >= SERIES_DROP,
        ensures
            final(self).time@ == bounded_push(old(self).time@, t),
            final(self).value@ == if old(self).time@.len() >= MAX_SERIES_POINTS {
                old(self).value@.skip(SERIES_DROP as int).push(v)
            } else {
                old(self).value@.push(v)
            },
    {
        if self.time.len() >= MAX_SERIES_POINTS {
            let kept_time = self.time.split_off(SERIES_DROP);
            self.time = kept_time;
            let kept_value = self.value.split_off(SERIES_DROP);
            self.value = kept_value;
        }
        self.time.push(t);
        self.value.push(v);
    }

    /// Removes every sample.
    pub fn clear(&mut self)
        ensures
            final(self).time@ == Seq::<T>::empty(),
            final(self).value@ == Seq::<T>::empty(),
    {
        self.time.clear();
        self.value.clear();
    }
}

impl<T> Default for LiveSeries<T> {
    fn default() -> (r: LiveSeries<T>)
        ensures
            r.time@ == Seq::<T>::empty(),
            r.value@ == Seq::<T>::empty(),
    {
        LiveSeries::new()
    }
}

/// A bounded push keeps a series within `MAX_SERIES_POINTS`, ends it with the
/// new item, keeps the newest old items in order, and treats the two columns
/// of a well-formed series alike.
pub proof fn lemma_bounded_push<A, B>(s: Seq<A>, x: A, u: Seq<B>, y: B)
    ensures
        s.len() <= MAX_SERIES_POINTS ==> bounded_push(s, x).len() <= MAX_SERIES_POINTS,
        bounded_push(s, x).last() == x,
        bounded_push(s, x).drop_last() =~= s.skip(s.len() + 1 - bounded_push(s, x).len()),
        s.len() == u.len() ==> bounded_push(s, x).len() == bounded_push(u, y).len(),
{
}

/// The view of one series: its time column and its value column.
pub open spec fn series_view<T>(s: LiveSeries<T>) -> (Seq<T>, Seq<T>) {
    (s.time@, s.value@)
}

/// The view of an empty series.
pub open spec fn empty_series<T>() -> (Seq<T>, Seq<T>) {
    (Seq::<T>::empty(), Seq::<T>::empty())
}

/// The view of a series after recording the sample `v` at time `t`.
pub open spec fn series_after_push<T>(s: (Seq<T>, Seq<T>), t: T, v: T) -> (Seq<T>, Seq<T>) {
    (bounded_push(s.0, t), bounded_push(s.1, v))
}

/// The series of `k` in `m`, or an empty one if `m` has none.
pub open spec fn series_in<T>(m: Map<Seq<char>, (Seq<T>, Seq<T>)>, k: Seq<char>) -> (Seq<T>, Seq<T>) {
    if m.dom().contains(k) {
        m[k]
    } else {
        empty_series()
    }
}

/// `m` with an empty series added for each of `names` that has none.
pub open spec fn with_entries<T>(m: Map<Seq<char>, (Seq<T>, Seq<T>)>, names: Seq<Seq<char>>) -> Map<
    Seq<char>,
    (Seq<T>, Seq<T>),
> {
    Map::new(
        |k: Seq<char>| m.dom().contains(k) || names.contains(k),
        |k: Seq<char>| series_in(m, k),
    )
}

/// Every series in `m` has a time column and a value column of equal length.
pub open spec fn columns_paired<T>(m: Map<Seq<char>, (Seq<T>, Seq<T>)>) -> bool {
    forall|k: Seq<char>| m.dom().contains(k) ==> (#[trigger] m[k]).0.len() == m[k].1.len()
}

/// The views of a sequence of strings.
pub open spec fn names_of(v: Seq<String>) -> Seq<Seq<char>> {
    v.map_values(|s: String| s@)
}

/// The live series of the session, one per output name.
pub struct SeriesMap<T> {
    names: Vec<String>,
    series: Vec<LiveSeries<T>>,
}

impl<T> SeriesMap<T> {
    pub closed spec fn keys(&self) -> Seq<Seq<char>> {
        self.names@.map_values(|s: String| s@)
    }

    pub closed spec fn entries(&self) -> Seq<(Seq<T>, Seq<T>)> {
        self.series@.map_values(|s: LiveSeries<T>| series_view(s))
    }

    /// Names are unique and every series has columns of equal length.
    pub closed spec fn wf(&self) -> bool {
        &&& self.names@.len() == self.series@.len()
        &&& self.keys().no_duplicates()
        &&& forall|i: int| 0 <= i < self.series@.len() ==> (#[trigger] self.series@[i]).wf()
    }

    /// The series of each name.
    pub closed spec fn view(&self) -> Map<Seq<char>, (Seq<T>, Seq<T>)> {
        Map::new(
            |k: Seq<char>| self.keys().contains(k),
            |k: Seq<char>| self.entries()[self.keys().index_of(k)],
        )
    }

    proof fn lemma_view_at(&self, i: int)
        requires
            self.wf(),
            0 <= i < self.names@.len(),
        ensures
            self@.dom().contains(self.keys()[i]),
            self@[self.keys()[i]] == self.entries()[i],
            self.keys().index_of(self.keys()[i]) == i,
    {
        let keys = self.keys();
        assert(keys.contains(keys[i]));
        let j = keys.index_of(keys[i]);
        assert(0 <= j < keys.len() && keys[j] == keys[i]);
    }

    /// In a well-formed map every series pairs each time with one value.
    pub proof fn lemma_columns_paired(&self)
        requires
            self.wf(),
        ensures
            columns_paired(self@),
    {
        assert forall|k: Seq<char>| self@.dom().contains(k) implies (#[trigger] self@[k]).0.len()
            == self@[k].1.len() by {
            let j = self.keys().index_of(k);
            assert(0 <= j < self.keys().len() && self.keys()[j] == k);
            self.lemma_view_at(j);
            assert(self.series@[j].wf());
        }
    }

    proof fn lemma_finite(&self)
        requires
            self.wf(),
        ensures
            self@.dom().finite(),
            self@.dom().len() == self.names@.len(),
    {
        let keys = self.keys();
        keys.unique_seq_to_set();
        assert(self@.dom() =~= keys.to_set());
    }

    pub fn new() -> (r: SeriesMap<T>)
        ensures
            r.wf(),
            r@ == Map::<Seq<char>, (Seq<T>, Seq<T>)>::empty(),
            columns_paired(r@),
    {
        let r = SeriesMap { names: Vec::new(), series: Vec::new() };
        assert(r@ =~= Map::<Seq<char>, (Seq<T>, Seq<T>)>::empty());
        r
    }

    /// Number of names that have a series.
    pub fn len(&self) -> (r: usize)
        requires
            self.wf(),
        ensures
            self@.dom().finite(),
            r == self@.dom().len(),
    {
        proof {
            self.lemma_finite();
        }
        self.names.len()
    }

    fn find(&self, name: &String) -> (r: Option<usize>)
        requires
            self.wf(),
        ensures
            r is None <==> !self@.dom().contains(name@),
            r matches Some(i) ==> i < self.names@.len() && self.keys()[i as int] == name@,
    {
        let mut i: usize = 0;
        while i < self.names.len()
            invariant
                self.wf(),
                i <= self.names@.len(),
                forall|j: int| 0 <= j < i ==> self.keys()[j] != name@,
            decreases self.names@.len() - i,
        {
            if self.names[i] == *name {
                assert(self.keys()[i as int] == self.names@[i as int]@);
                return Some(i);
            }
            assert(self.keys()[i as int] == self.names@[i as int]@);
            i = i + 1;
        }
        proof {
            if self.keys().contains(name@) {
                let j = choose|j: int| 0 <= j < self.keys().len() && self.keys()[j] == name@;
                assert(self.keys()[j] == name@);
            }
        }
        None
    }

    /// The series recorded for `name`, if there is one.
    pub fn get(&self, name: &String) -> (r: Option<&LiveSeries<T>>)
        requires
            self.wf(),
        ensures
            r is None <==> !self@.dom().contains(name@),
            r matches Some(s) ==> series_view(*s) == self@[name@] && s.wf(),
    {
        match self.find(name) {
            Some(i) => {
                proof {
                    self.lemma_view_at(i as int);
                }
                Some(&self.series[i])
            },
            None => None,
        }
    }

    /// Index of the series of `name`, adding an empty one if there is none.
    fn entry_index(&mut self, name: &String) -> (i: usize)
        requires
            old(self).wf(),
        ensures
            final(self).wf(),
            final(self)@ == if old(self)@.dom().contains(name@) {
                old(self)@
            } else {
                old(self)@.insert(name@, empty_series())
            },
            i < final(self).names@.len(),
            final(self).keys()[i as int] == name@,
            final(self).names@.len() == old(self).names@.len() + (if old(self)@.dom().contains(
                name@,
            ) {
                0int
            } else {
                1int
            }),
    {
        match self.find(name) {
            Some(i) => i,
            None => {
                let ghost old_self = *self;
                self.names.push(name.clone());
                self.series.push(LiveSeries::new());
                proof {
                    let keys = self.keys();
                    assert(keys =~= old_self.keys().push(name@));
                    assert(self.entries() =~= old_self.entries().push(empty_series()));
                    assert(keys.no_duplicates()) by {
                        assert forall|a: int, b: int|
                            0 <= a < keys.len() && 0 <= b < keys.len() && a != b implies keys[a]
                            != keys[b] by {
                            assert(!old_self.keys().contains(name@));
                            if a == keys.len() - 1 {
                                assert(old_self.keys()[b] == keys[b]);
                                assert(old_self.keys().contains(keys[b]));
                            } else if b == keys.len() - 1 {
                                assert(old_self.keys()[a] == keys[a]);
                                assert(old_self.keys().contains(keys[a]));
                            } else {
                                assert(old_self.keys()[a] == keys[a]);
                                assert(old_self.keys()[b] == keys[b]);
                            }
                        }
                    }
                    assert(self.wf());
                    let expected = old_self@.insert(name@, empty_series());
                    assert forall|k: Seq<char>| #[trigger]
                        expected.dom().contains(k) implies self@.dom().contains(k)
                        && self@[k] == expected[k] by {
                        if k == name@ {
                            self.lemma_view_at(keys.len() - 1);
                        } else {
                            let j = old_self.keys().index_of(k);
                            assert(0 <= j < old_self.keys().len() && old_self.keys()[j] == k);
                            old_self.lemma_view_at(j);
                            self.lemma_view_at(j);
                        }
                    }
                    assert forall|k: Seq<char>| #[trigger]
                        self@.dom().contains(k) implies expected.dom().contains(k) by {
                        let j = keys.index_of(k);
                        assert(0 <= j < keys.len() && keys[j] == k);
                        if j < keys.len() - 1 {
                            assert(old_self.keys()[j] == k);
                        }
                    }
                    assert(self@ =~= expected);
                    self.lemma_view_at(keys.len() - 1);
                }
                self.names.len() - 1
            },
        }
    }

    /// Makes sure that `name` has a series, adding an empty one if needed.
    pub fn ensure(&mut self, name: &String)
        requires
            old(self).wf(),
        ensures
            final(self).wf(),
            columns_paired(final(self)@),
            final(self)@ == if old(self)@.dom().contains(name@) {
                old(self)@
            } else {
                old(self)@.insert(name@, empty_series())
            },
    {
        self.entry_index(name);
        proof {
            self.lemma_columns_paired();
        }
    }

    /// Records the sample `v` at time `t` in the series of `name`, which is
    /// created empty first if there is none.
    pub fn push(&mut self, name: &String, t: T, v: T)
        requires
            old(self).wf(),
        ensures
            final(self).wf(),
            columns_paired(final(self)@),
            final(self)@ == old(self)@.insert(
                name@,
                series_after_push(series_in(old(self)@, name@), t, v),
            ),
    {
        let ghost before = self@;
        let i = self.entry_index(name);
        let ghost mid = *self;
        proof {
            mid.lemma_view_at(i as int);
            assert(mid.series@[i as int].wf());
        }
        self.series[i].push(t, v);
        proof {
            let keys = self.keys();
            assert(keys =~= mid.keys());
            assert(self.entries() =~= mid.entries().update(
                i as int,
                series_after_push(mid.entries()[i as int], t, v),
            ));
            assert forall|j: int| 0 <= j < self.series@.len() implies (
            #[trigger] self.series@[j]).wf() by {
                if j != i {
                    assert(self.series@[j] == mid.series@[j]);
                }
            }
            assert(self.wf());
            let expected = before.insert(
                name@,
                series_after_push(mid.entries()[i as int], t, v),
            );
            assert forall|k: Seq<char>| #[trigger]
                expected.dom().contains(k) implies self@.dom().contains(k) && self@[k]
                == expected[k] by {
                if k == name@ {
                    self.lemma_view_at(i as int);
                } else {
                    assert(mid@.dom().contains(k));
                    let j = mid.keys().index_of(k);
                    assert(0 <= j < mid.keys().len() && mid.keys()[j] == k);
                    mid.lemma_view_at(j);
                    self.lemma_view_at(j);
                }
            }
            assert forall|k: Seq<char>| #[trigger]
                self@.dom().contains(k) implies expected.dom().contains(k) by {
                let j = keys.index_of(k);
                assert(0 <= j < keys.len() && keys[j] == k);
                mid.lemma_view_at(j);
            }
            assert(self@ =~= expected);
        }
        proof {
            self.lemma_columns_paired();
        }
    }

    /// Makes sure that each of `names` has a series, adding empty ones as needed.
    pub fn ensure_all(&mut self, names: &Vec<String>)
        requires
            old(self).wf(),
        ensures
            final(self).wf(),
            columns_paired(final(self)@),
            final(self)@ == with_entries(old(self)@, names_of(names@)),
    {
        let ghost before = self@;
        let mut i: usize = 0;
        while i < names.len()
            invariant
                self.wf(),
                i <= names@.len(),
                self@ == with_entries(before, names_of(names@).take(i as int)),
            decreases names@.len() - i,
        {
            let ghost prev = self@;
            self.ensure(&names[i]);
            proof {
                let all = names_of(names@);
                assert(all.take(i + 1) =~= all.take(i as int).push(names@[i as int]@));
                assert forall|k: Seq<char>|
                    all.take(i + 1).contains(k) <==> (all.take(i as int).contains(k) || k
                        == names@[i as int]@) by {
                    let short = all.take(i as int);
                    let long = all.take(i + 1);
                    if short.contains(k) {
                        let j = choose|j: int| 0 <= j < short.len() && #[trigger] short[j] == k;
                        assert(long[j] == k);
                    }
                    if k == names@[i as int]@ {
                        assert(long[i as int] == k);
                    }
                    if long.contains(k) {
                        let j = choose|j: int| 0 <= j < long.len() && #[trigger] long[j] == k;
                        if j < i {
                            assert(short[j] == k);
                        }
                    }
                }
                assert(self@ =~= with_entries(before, all.take(i + 1)));
            }
            i = i + 1;
        }
        assert(names_of(names@).take(names@.len() as int) =~= names_of(names@));
        proof {
            self.lemma_columns_paired();
        }
    }

    /// Empties every series and keeps the names.
    pub fn clear_all(&mut self)
        requires
            old(self).wf(),
        ensures
            final(self).wf(),
            columns_paired(final(self)@),
            final(self)@ == Map::new(
                |k: Seq<char>| old(self)@.dom().contains(k),
                |k: Seq<char>| empty_series::<T>(),
            ),
    {
        let ghost before = *self;
        let mut i: usize = 0;
        while i < self.series.len()
            invariant
                self.names@ == before.names@,
                self.series@.len() == before.series@.len(),
                0 <= i <= self.series@.len(),
                forall|j: int| 0 <= j < i ==> series_view(#[trigger] self.series@[j]) == empty_series::<T>(),
                forall|j: int| i <= j < self.series@.len() ==> #[trigger] self.series@[j] == before.series@[j],
            decreases self.series@.len() - i,
        {
            self.series[i].clear();
            i = i + 1;
        }
        proof {
            assert(self.keys() =~= before.keys());
            assert forall|j: int| 0 <= j < self.series@.len() implies (
            #[trigger] self.series@[j]).wf() by {
                assert(series_view(self.series@[j]) == empty_series::<T>());
            }
            assert(self.wf());
            let expected = Map::new(
                |k: Seq<char>| before@.dom().contains(k),
                |k: Seq<char>| empty_series::<T>(),
            );
            assert forall|k: Seq<char>| #[trigger]
                expected.dom().contains(k) implies self@.dom().contains(k) && self@[k]
                == expected[k] by {
                let j = before.keys().index_of(k);
                assert(0 <= j < before.keys().len() && before.keys()[j] == k);
                self.lemma_view_at(j);
                assert(series_view(self.series@[j]) == empty_series::<T>());
            }
            assert(self@ =~= expected);
        }
        proof {
            self.lemma_columns_paired();
        }
    }

    /// Removes every name and its series.
    pub fn clear(&mut self)
        ensures
            final(self).wf(),
            columns_paired(final(self)@),
            final(self)@ == Map::<Seq<char>, (Seq<T>, Seq<T>)>::empty(),
    {
        self.names.clear();
        self.series.clear();
        assert(self@ =~= Map::<Seq<char>, (Seq<T>, Seq<T>)>::empty());
        proof {
            self.lemma_columns_paired();
        }
    }
}

} // verus!
