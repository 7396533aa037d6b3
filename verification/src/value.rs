//! The configuration tree: layers produced by data sources and the merged
//! snapshot handed to the template engine are all values of this shape.
use vstd::prelude::*;

verus! {

/// How two configuration values are combined.
///
/// `Merge` and `Admerge` are right-biased (the other value wins at leaves),
/// `Join` and `Adjoin` are left-biased; the `Ad*` orders concatenate
/// sequences instead of replacing them.
#[derive(Clone, Copy, PartialEq, Eq, Structural, Debug)]
pub enum Order {
    Merge,
    Join,
    Adjoin,
    Admerge,
}

/// A configuration value: a scalar, a sequence, or a tree of keyed entries.
///
/// Numbers that do not fit an `i64` (or carry a fractional part) are held as
/// their literal text in `Num`, so no information is lost on the way to the
/// template engine.
pub enum ConfigValue {
    Null,
    Bool(bool),
    Int(i64),
    Num(String),
    Text(String),
    Sequence(Vec<ConfigValue>),
    Tree(Vec<(String, ConfigValue)>),
}

/// The mathematical model of a `ConfigValue`: the same shape over `Seq`.
pub enum SpecValue {
    Null,
    Bool(bool),
    Int(i64),
    Num(Seq<char>),
    Text(Seq<char>),
    Sequence(Seq<SpecValue>),
    Tree(Seq<(Seq<char>, SpecValue)>),
}

/// The deep model of each element of a sequence of values.
pub open spec fn deep_items(items: Seq<ConfigValue>) -> Seq<SpecValue>
    decreases items,
{
    Seq::new(
        items.len(),
        |i: int|
            if 0 <= i < items.len() {
                proof {
                    assert(decreases_to!(items => items[i]));
                }
                deep(items[i])
            } else {
                SpecValue::Null
            },
    )
}

/// The deep model of each entry of a tree level.
pub open spec fn deep_entries(entries: Seq<(String, ConfigValue)>) -> Seq<
    (Seq<char>, SpecValue),
>
    decreases entries,
{
    Seq::new(
        entries.len(),
        |i: int|
            if 0 <= i < entries.len() {
                proof {
                    assert(decreases_to!(entries => entries[i]));
                    assert(decreases_to!(entries[i] => entries[i].1));
                }
                (entries[i].0@, deep(entries[i].1))
            } else {
                (Seq::empty(), SpecValue::Null)
            },
    )
}

/// The deep model of a `ConfigValue`.
pub open spec fn deep(v: ConfigValue) -> SpecValue
    decreases v,
{
    match v {
        ConfigValue::Null => SpecValue::Null,
        ConfigValue::Bool(b) => SpecValue::Bool(b),
        ConfigValue::Int(n) => SpecValue::Int(n),
        ConfigValue::Num(s) => SpecValue::Num(s@),
        ConfigValue::Text(s) => SpecValue::Text(s@),
        ConfigValue::Sequence(items) => {
            proof {
                assert(decreases_to!(v => v->Sequence_0));
                assert(decreases_to!(v->Sequence_0 => v->Sequence_0@));
            }
            SpecValue::Sequence(deep_items(items@))
        },
        ConfigValue::Tree(entries) => {
            proof {
                assert(decreases_to!(v => v->Tree_0));
                assert(decreases_to!(v->Tree_0 => v->Tree_0@));
            }
            SpecValue::Tree(deep_entries(entries@))
        },
    }
}

impl View for ConfigValue {
    type V = SpecValue;

    open spec fn view(&self) -> SpecValue {
        deep(*self)
    }
}

/// Whether some entry of a tree level carries the key `k`.
pub open spec fn has_key(entries: Seq<(Seq<char>, SpecValue)>, k: Seq<char>) -> bool {
    exists|i: int| 0 <= i < entries.len() && entries[i].0 == k
}

/// The value of the first entry carrying the key `k`.
pub open spec fn lookup(entries: Seq<(Seq<char>, SpecValue)>, k: Seq<char>) -> SpecValue
    decreases entries.len(),
{
    if entries.len() == 0 {
        SpecValue::Null
    } else if entries[0].0 == k {
        entries[0].1
    } else {
        lookup(entries.drop_first(), k)
    }
}

/// The entries of `b` whose keys do not occur in `a`, in `b`'s order.
pub open spec fn rest_entries(
    b: Seq<(Seq<char>, SpecValue)>,
    a: Seq<(Seq<char>, SpecValue)>,
) -> Seq<(Seq<char>, SpecValue)>
    decreases b.len(),
{
    if b.len() == 0 {
        Seq::empty()
    } else {
        rest_entries(b.drop_last(), a) + if has_key(a, b.last().0) {
            Seq::empty()
        } else {
            seq![b.last()]
        }
    }
}

/// One merged tree level restricted to `a`'s keys: every key of `a` keeps
/// its position, its value combined with `b`'s where `b` also carries the
/// key.
pub open spec fn merged_head(
    a: Seq<(Seq<char>, SpecValue)>,
    b: Seq<(Seq<char>, SpecValue)>,
    o: Order,
) -> Seq<(Seq<char>, SpecValue)>
    decreases a,
{
    Seq::new(
        a.len(),
        |i: int|
            if 0 <= i < a.len() {
                proof {
                    assert(decreases_to!(a => a[i]));
                    assert(decreases_to!(a[i] => a[i].1));
                }
                (
                    a[i].0,
                    if has_key(b, a[i].0) {
                        spec_coalesce(a[i].1, lookup(b, a[i].0), o)
                    } else {
                        a[i].1
                    },
                )
            } else {
                a[i]
            },
    )
}

/// The combination of two values under the given order.
///
/// Two trees merge entry-wise: every key of `a` keeps its position, with its
/// value combined recursively where `b` also carries the key; keys only in
/// `b` follow in `b`'s relative order. Two sequences concatenate under
/// `Adjoin`/`Admerge`. Anything else is decided at the leaf: the left value
/// wins under `Join`/`Adjoin`, the right one under `Merge`/`Admerge`.
pub open spec fn spec_coalesce(a: SpecValue, b: SpecValue, o: Order) -> SpecValue
    decreases a,
{
    if a is Tree && b is Tree {
        proof {
            assert(decreases_to!(a => a->Tree_0));
        }
        SpecValue::Tree(
            merged_head(a->Tree_0, b->Tree_0, o) + rest_entries(b->Tree_0, a->Tree_0),
        )
    } else if a is Sequence && b is Sequence && (o is Adjoin || o is Admerge) {
        SpecValue::Sequence(a->Sequence_0 + b->Sequence_0)
    } else if o is Join || o is Adjoin {
        a
    } else {
        b
    }
}

impl ConfigValue {
    /// A structurally equal copy.
    pub fn duplicate(&self) -> (r: ConfigValue)
        ensures
            r@ == self@,
        decreases *self,
    {
        match self {
            ConfigValue::Null => ConfigValue::Null,
            ConfigValue::Bool(b) => ConfigValue::Bool(*b),
            ConfigValue::Int(n) => ConfigValue::Int(*n),
            ConfigValue::Num(s) => ConfigValue::Num(s.clone()),
            ConfigValue::Text(s) => ConfigValue::Text(s.clone()),
            ConfigValue::Sequence(items) => {
                let mut out: Vec<ConfigValue> = Vec::new();
                let mut i: usize = 0;
                while i < items.len()
                    invariant
                        i <= items@.len(),
                        out@.len() == i,
                        *self == ConfigValue::Sequence(*items),
                        forall|j: int| 0 <= j < i ==> deep(#[trigger] out@[j]) == deep(items@[j]),
                    decreases items@.len() - i,
                {
                    proof {
                        assert(decreases_to!(*self => self->Sequence_0));
                        assert(decreases_to!(self->Sequence_0 => self->Sequence_0@));
                        assert(decreases_to!(self->Sequence_0@ => self->Sequence_0@[i as int]));
                    }
                    let d = items[i].duplicate();
                    out.push(d);
                    i = i + 1;
                }
                proof {
                    assert(deep_items(out@) =~= deep_items(items@));
                }
                ConfigValue::Sequence(out)
            },
            ConfigValue::Tree(entries) => {
                let mut out: Vec<(String, ConfigValue)> = Vec::new();
                let mut i: usize = 0;
                while i < entries.len()
                    invariant
                        i <= entries@.len(),
                        out@.len() == i,
                        *self == ConfigValue::Tree(*entries),
                        forall|j: int|
                            0 <= j < i ==> (#[trigger] out@[j]).0@ == entries@[j].0@ && deep(
                                out@[j].1,
                            ) == deep(entries@[j].1),
                    decreases entries@.len() - i,
                {
                    proof {
                        assert(decreases_to!(*self => self->Tree_0));
                        assert(decreases_to!(self->Tree_0 => self->Tree_0@));
                        assert(decreases_to!(self->Tree_0@ => self->Tree_0@[i as int]));
                        assert(decreases_to!(
                            self->Tree_0@[i as int] => self->Tree_0@[i as int].1
                        ));
                    }
                    let k = entries[i].0.clone();
                    let d = entries[i].1.duplicate();
                    out.push((k, d));
                    i = i + 1;
                }
                proof {
                    assert(deep_entries(out@) =~= deep_entries(entries@));
                }
                ConfigValue::Tree(out)
            },
        }
    }
}

/// The position of the first entry whose key equals `k`, if any.
pub fn find_key(entries: &Vec<(String, ConfigValue)>, k: &String) -> (r: Option<usize>)
    ensures
        match r {
            Some(j) => j < entries@.len() && entries@[j as int].0@ == k@ && forall|l: int|
                0 <= l < j ==> (#[trigger] entries@[l]).0@ != k@,
            None => forall|l: int| 0 <= l < entries@.len() ==> (#[trigger] entries@[l]).0@ != k@,
        },
{
    let mut i: usize = 0;
    while i < entries.len()
        invariant
            i <= entries@.len(),
            forall|l: int| 0 <= l < i ==> (#[trigger] entries@[l]).0@ != k@,
        decreases entries@.len() - i,
    {
        if entries[i].0.eq(k) {
            return Some(i);
        }
        i = i + 1;
    }
    None
}

/// Combine two values under the given order; the core of the layered merge.
pub fn coalesce_value(a: &ConfigValue, b: &ConfigValue, o: Order) -> (r: ConfigValue)
    ensures
        r@ == spec_coalesce(a@, b@, o),
    decreases *a,
{
    match (a, b) {
        (ConfigValue::Tree(ae), ConfigValue::Tree(be)) => {
            let ghost da = deep_entries(ae@);
            let ghost db = deep_entries(be@);
            let mut out: Vec<(String, ConfigValue)> = Vec::new();
            let mut i: usize = 0;
            while i < ae.len()
                invariant
                    i <= ae@.len(),
                    out@.len() == i,
                    *a == ConfigValue::Tree(*ae),
                    *b == ConfigValue::Tree(*be),
                    da == deep_entries(ae@),
                    db == deep_entries(be@),
                    forall|j: int|
                        0 <= j < i ==> (#[trigger] out@[j]).0@ == merged_head(da, db, o)[j].0
                            && deep(out@[j].1) == merged_head(da, db, o)[j].1,
                decreases ae@.len() - i,
            {
                proof {
                    assert(decreases_to!(*a => a->Tree_0));
                    assert(decreases_to!(a->Tree_0 => a->Tree_0@));
                    assert(decreases_to!(a->Tree_0@ => a->Tree_0@[i as int]));
                    assert(decreases_to!(a->Tree_0@[i as int] => a->Tree_0@[i as int].1));
                }
                let k = ae[i].0.clone();
                let merged = match find_key(be, &k) {
                    Some(jj) => {
                        proof {
                            assert(db[jj as int].0 == k@);
                            assert(has_key(db, k@));
                            assert forall|l: int| 0 <= l < jj implies (#[trigger] db[l]).0 != k@
                            by {
                                assert(db[l].0 == be@[l].0@);
                            }
                            lemma_lookup_first(db, k@, jj as int);
                        }
                        coalesce_value(&ae[i].1, &be[jj].1, o)
                    },
                    None => {
                        proof {
                            assert forall|l: int| 0 <= l < db.len() implies (#[trigger] db[l]).0
                                != k@ by {
                                assert(db[l].0 == be@[l].0@);
                            }
                            assert(!has_key(db, k@));
                        }
                        ae[i].1.duplicate()
                    },
                };
                out.push((k, merged));
                i = i + 1;
            }
            let ghost head = out@;
            proof {
                assert(deep_entries(head) =~= merged_head(da, db, o));
            }
            let mut t: usize = 0;
            while t < be.len()
                invariant
                    t <= be@.len(),
                    *a == ConfigValue::Tree(*ae),
                    *b == ConfigValue::Tree(*be),
                    da == deep_entries(ae@),
                    db == deep_entries(be@),
                    deep_entries(out@) =~= merged_head(da, db, o) + rest_entries(
                        db.subrange(0, t as int),
                        da,
                    ),
                decreases be@.len() - t,
            {
                let ghost prefix = db.subrange(0, t as int);
                let ghost step = db.subrange(0, t as int + 1);
                proof {
                    assert(step.drop_last() =~= prefix);
                    assert(step.last() == db[t as int]);
                    assert(db[t as int].0 == be@[t as int].0@);
                }
                match find_key(ae, &be[t].0) {
                    Some(j) => {
                        proof {
                            assert(da[j as int].0 == be@[t as int].0@);
                            assert(has_key(da, db[t as int].0));
                            assert(rest_entries(step, da) =~= rest_entries(prefix, da));
                        }
                    },
                    None => {
                        proof {
                            assert forall|l: int| 0 <= l < da.len() implies (#[trigger] da[l]).0
                                != db[t as int].0 by {
                                assert(da[l].0 == ae@[l].0@);
                            }
                            assert(!has_key(da, db[t as int].0));
                        }
                        let ghost prev = out@;
                        let kd = be[t].0.clone();
                        let vd = be[t].1.duplicate();
                        out.push((kd, vd));
                        proof {
                            assert(rest_entries(step, da) =~= rest_entries(prefix, da)
                                + seq![db[t as int]]);
                            assert(rest_entries(step, da).len() == rest_entries(prefix, da).len()
                                + 1);
                            assert(deep_entries(prev).len() == prev.len());
                            assert(prev.len() == merged_head(da, db, o).len() + rest_entries(
                                prefix,
                                da,
                            ).len());
                            assert(out@.len() == merged_head(da, db, o).len() + rest_entries(
                                step,
                                da,
                            ).len());
                            assert forall|l: int| 0 <= l < out@.len() implies deep_entries(out@)[l]
                                == (merged_head(da, db, o) + rest_entries(step, da))[l] by {
                                if l < prev.len() {
                                    assert(out@[l] == prev[l]);
                                    assert(deep_entries(prev)[l] == (merged_head(da, db, o)
                                        + rest_entries(prefix, da))[l]);
                                } else {
                                    assert(out@[l] == (kd, vd));
                                    assert(deep_entries(out@)[l] == (kd@, deep(vd)));
                                    assert((kd@, deep(vd)) == db[t as int]);
                                }
                            }
                            assert(deep_entries(out@) =~= merged_head(da, db, o) + rest_entries(
                                step,
                                da,
                            ));
                        }
                    },
                }
                t = t + 1;
            }
            proof {
                assert(db.subrange(0, be@.len() as int) =~= db);
            }
            ConfigValue::Tree(out)
        },
        (ConfigValue::Sequence(xs), ConfigValue::Sequence(ys)) => {
            if matches!(o, Order::Adjoin | Order::Admerge) {
                let mut out: Vec<ConfigValue> = Vec::new();
                let mut i: usize = 0;
                while i < xs.len()
                    invariant
                        i <= xs@.len(),
                        out@.len() == i,
                        *a == ConfigValue::Sequence(*xs),
                        forall|j: int| 0 <= j < i ==> deep(#[trigger] out@[j]) == deep(xs@[j]),
                    decreases xs@.len() - i,
                {
                    let d = xs[i].duplicate();
                    out.push(d);
                    i = i + 1;
                }
                let mut t: usize = 0;
                while t < ys.len()
                    invariant
                        t <= ys@.len(),
                        out@.len() == xs@.len() + t,
                        *a == ConfigValue::Sequence(*xs),
                        *b == ConfigValue::Sequence(*ys),
                        forall|j: int|
                            0 <= j < xs@.len() ==> deep(#[trigger] out@[j]) == deep(xs@[j]),
                        forall|j: int|
                            0 <= j < t ==> deep(#[trigger] out@[xs@.len() + j]) == deep(ys@[j]),
                    decreases ys@.len() - t,
                {
                    let d = ys[t].duplicate();
                    out.push(d);
                    t = t + 1;
                }
                proof {
                    assert forall|l: int| 0 <= l < out@.len() implies deep_items(out@)[l] == (
                    deep_items(xs@) + deep_items(ys@))[l] by {
                        if l < xs@.len() {
                            assert(deep(out@[l]) == deep(xs@[l]));
                        } else {
                            assert(deep(out@[xs@.len() + (l - xs@.len())]) == deep(
                                ys@[l - xs@.len()],
                            ));
                        }
                    }
                    assert(deep_items(out@) =~= deep_items(xs@) + deep_items(ys@));
                }
                ConfigValue::Sequence(out)
            } else if matches!(o, Order::Join) {
                a.duplicate()
            } else {
                b.duplicate()
            }
        },
        _ => {
            if matches!(o, Order::Join | Order::Adjoin) {
                a.duplicate()
            } else {
                b.duplicate()
            }
        },
    }
}

/// Layered combination of values, in the manner of the configuration
/// libraries this tool follows: later layers win at the leaves under
/// `Merge`.
pub trait Coalescible: Sized + View {
    /// The model of the combination of `self` and `other`.
    spec fn spec_combined(self, other: Self, order: Order) -> Self::V;

    /// Combine `self` with `other` under the given order.
    fn coalesce(self, other: Self, order: Order) -> (r: Self)
        ensures
            r@ == self.spec_combined(other, order),
    ;

    /// Combine `self` with `other`, the right side winning at the leaves.
    fn merge(self, other: Self) -> (r: Self)
        ensures
            r@ == self.spec_combined(other, Order::Merge),
    ;
}

impl Coalescible for ConfigValue {
    open spec fn spec_combined(self, other: Self, order: Order) -> SpecValue {
        spec_coalesce(deep(self), deep(other), order)
    }

    fn coalesce(self, other: Self, order: Order) -> (r: Self) {
        coalesce_value(&self, &other, order)
    }

    fn merge(self, other: Self) -> (r: Self) {
        coalesce_value(&self, &other, Order::Merge)
    }
}

/// The first entry carrying key `k` is the one that `lookup` yields.
pub proof fn lemma_lookup_first(entries: Seq<(Seq<char>, SpecValue)>, k: Seq<char>, j: int)
    requires
        0 <= j < entries.len(),
        entries[j].0 == k,
        forall|l: int| 0 <= l < j ==> (#[trigger] entries[l]).0 != k,
    ensures
        lookup(entries, k) == entries[j].1,
    decreases entries.len(),
{
    if j > 0 {
        lemma_lookup_first(entries.drop_first(), k, j - 1);
    }
}

/// A lookup in an appended level takes the left side's entry when the left
/// side has the key, and the right side's entry otherwise.
pub proof fn lemma_lookup_append(
    s1: Seq<(Seq<char>, SpecValue)>,
    s2: Seq<(Seq<char>, SpecValue)>,
    k: Seq<char>,
)
    ensures
        has_key(s1, k) ==> lookup(s1 + s2, k) == lookup(s1, k),
        !has_key(s1, k) ==> lookup(s1 + s2, k) == lookup(s2, k),
        has_key(s1 + s2, k) <==> has_key(s1, k) || has_key(s2, k),
    decreases s1.len(),
{
    if s1.len() == 0 {
        assert(s1 + s2 =~= s2);
    } else {
        lemma_lookup_append(s1.drop_first(), s2, k);
        assert((s1 + s2).drop_first() =~= s1.drop_first() + s2);
        if s1[0].0 != k && has_key(s1, k) {
            let i = choose|i: int| 0 <= i < s1.len() && s1[i].0 == k;
            assert(s1.drop_first()[i - 1].0 == k);
        }
        if has_key(s1.drop_first(), k) {
            let i = choose|i: int| 0 <= i < s1.drop_first().len() && s1.drop_first()[i].0 == k;
            assert(s1[i + 1].0 == k);
        }
        if has_key(s1 + s2, k) {
            let i = choose|i: int| 0 <= i < (s1 + s2).len() && (s1 + s2)[i].0 == k;
            if i >= s1.len() {
                assert(s2[i - s1.len()].0 == k);
            }
        }
        if has_key(s2, k) {
            let i = choose|i: int| 0 <= i < s2.len() && s2[i].0 == k;
            assert((s1 + s2)[s1.len() + i].0 == k);
        }
    }
}

/// The head of a merged tree level holds exactly the keys of `a`, and a
/// lookup there combines `a`'s entry with `b`'s.
pub proof fn lemma_lookup_merged_head(
    a: Seq<(Seq<char>, SpecValue)>,
    b: Seq<(Seq<char>, SpecValue)>,
    o: Order,
    k: Seq<char>,
)
    ensures
        has_key(merged_head(a, b, o), k) <==> has_key(a, k),
        has_key(a, k) && has_key(b, k) ==> lookup(merged_head(a, b, o), k) == spec_coalesce(
            lookup(a, k),
            lookup(b, k),
            o,
        ),
        has_key(a, k) && !has_key(b, k) ==> lookup(merged_head(a, b, o), k) == lookup(a, k),
    decreases a.len(),
{
    let mh = merged_head(a, b, o);
    assert forall|i: int| 0 <= i < a.len() implies (#[trigger] mh[i]).0 == a[i].0 by {}
    if has_key(mh, k) {
        let i = choose|i: int| 0 <= i < mh.len() && mh[i].0 == k;
        assert(a[i].0 == k);
    }
    if has_key(a, k) {
        let i = choose|i: int| 0 <= i < a.len() && a[i].0 == k;
        assert(mh[i].0 == k);
        if a[0].0 == k {
            assert(lookup(a, k) == a[0].1);
            assert(lookup(mh, k) == mh[0].1);
        } else {
            lemma_lookup_merged_head(a.drop_first(), b, o, k);
            assert(a.drop_first()[i - 1].0 == k);
            assert(mh.drop_first() =~= merged_head(a.drop_first(), b, o));
        }
    }
}

/// The tail of a merged tree level holds exactly the keys of `b` that `a`
/// lacks, in `b`'s order, with `b`'s values untouched.
pub proof fn lemma_lookup_rest(
    b: Seq<(Seq<char>, SpecValue)>,
    a: Seq<(Seq<char>, SpecValue)>,
    k: Seq<char>,
)
    ensures
        has_key(rest_entries(b, a), k) <==> has_key(b, k) && !has_key(a, k),
        has_key(b, k) && !has_key(a, k) ==> lookup(rest_entries(b, a), k) == lookup(b, k),
    decreases b.len(),
{
    reveal_with_fuel(rest_entries, 2);
    if b.len() == 0 {
    } else {
        lemma_rest_cons(b, a);
        lemma_lookup_rest(b.drop_first(), a, k);
        let head: Seq<(Seq<char>, SpecValue)> = if has_key(a, b[0].0) {
            Seq::empty()
        } else {
            seq![b[0]]
        };
        lemma_lookup_append(head, rest_entries(b.drop_first(), a), k);
        if b[0].0 != k && has_key(b, k) {
            let i = choose|i: int| 0 <= i < b.len() && b[i].0 == k;
            assert(b.drop_first()[i - 1].0 == k);
        }
        if has_key(b.drop_first(), k) {
            let i = choose|i: int| 0 <= i < b.drop_first().len() && b.drop_first()[i].0 == k;
            assert(b[i + 1].0 == k);
        }
    }
}

/// `rest_entries` unrolled at the front instead of the back.
pub proof fn lemma_rest_cons(b: Seq<(Seq<char>, SpecValue)>, a: Seq<(Seq<char>, SpecValue)>)
    requires
        b.len() > 0,
    ensures
        rest_entries(b, a) == (if has_key(a, b[0].0) {
            Seq::<(Seq<char>, SpecValue)>::empty()
        } else {
            seq![b[0]]
        }) + rest_entries(b.drop_first(), a),
    decreases b.len(),
{
    let head: Seq<(Seq<char>, SpecValue)> = if has_key(a, b[0].0) {
        Seq::empty()
    } else {
        seq![b[0]]
    };
    if b.len() == 1 {
        assert(b.drop_last() =~= Seq::empty());
        assert(b.drop_first() =~= Seq::empty());
        assert(b.last() == b[0]);
        assert(rest_entries(b, a) =~= head + rest_entries(b.drop_first(), a));
    } else {
        lemma_rest_cons(b.drop_last(), a);
        assert(b.drop_last()[0] == b[0]);
        assert(b.drop_last().drop_first() =~= b.drop_first().drop_last());
        assert(b.drop_first().last() == b.last());
        assert(rest_entries(b, a) == rest_entries(b.drop_last(), a) + (if has_key(a, b.last().0) {
            Seq::<(Seq<char>, SpecValue)>::empty()
        } else {
            seq![b.last()]
        }));
        assert(rest_entries(b, a) =~= head + rest_entries(b.drop_first(), a));
    }
}

/// Law: the layered merge is right-biased and order-preserving. In the
/// merge of two trees, every key of either side survives; `a`'s keys keep
/// their positions and `b`'s new keys follow in `b`'s order; at a key held
/// by both sides two trees merge recursively, while any other pair is
/// decided in favour of `b`. Two sequences never concatenate under `Merge`:
/// the right one replaces the left.
pub proof fn lemma_merge_right_biased(a: SpecValue, b: SpecValue, k: Seq<char>)
    ensures
        a is Tree && b is Tree ==> {
            let m = spec_coalesce(a, b, Order::Merge);
            &&& m is Tree
            &&& (has_key(m->Tree_0, k) <==> has_key(a->Tree_0, k) || has_key(b->Tree_0, k))
            &&& has_key(a->Tree_0, k) && has_key(b->Tree_0, k) ==> lookup(m->Tree_0, k)
                == spec_coalesce(lookup(a->Tree_0, k), lookup(b->Tree_0, k), Order::Merge)
            &&& has_key(a->Tree_0, k) && !has_key(b->Tree_0, k) ==> lookup(m->Tree_0, k) == lookup(
                a->Tree_0,
                k,
            )
            &&& !has_key(a->Tree_0, k) && has_key(b->Tree_0, k) ==> lookup(m->Tree_0, k) == lookup(
                b->Tree_0,
                k,
            )
            &&& m->Tree_0.len() >= a->Tree_0.len()
            &&& forall|i: int|
                0 <= i < a->Tree_0.len() ==> (#[trigger] m->Tree_0[i]).0 == a->Tree_0[i].0
        },
        a is Tree && b is Tree && !(lookup(a->Tree_0, k) is Tree && lookup(b->Tree_0, k) is Tree)
            && has_key(a->Tree_0, k) && has_key(b->Tree_0, k) ==> lookup(
            spec_coalesce(a, b, Order::Merge)->Tree_0,
            k,
        ) == lookup(b->Tree_0, k),
        !(a is Tree && b is Tree) ==> spec_coalesce(a, b, Order::Merge) == b,
{
    if a is Tree && b is Tree {
        let ae = a->Tree_0;
        let be = b->Tree_0;
        lemma_lookup_merged_head(ae, be, Order::Merge, k);
        lemma_lookup_rest(be, ae, k);
        lemma_lookup_append(merged_head(ae, be, Order::Merge), rest_entries(be, ae), k);
    }
}

} // verus!
