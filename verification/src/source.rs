//! The configuration sources: each produces one layer of the snapshot, and
//! an ordered registry merges them.
use vstd::prelude::*;

use crate::error::{DataSourceError, Error};
use crate::parse::{
    classify_path, parse_text, spec_accepts, spec_extension, spec_file_format, spec_tree_of,
};
use crate::strutil::{
    all_digits, first_pos, int_value, is_int_literal, lower_spec, parse_int, replace_char,
    replace_spec, split_char, split_spec, starts_with, starts_with_spec, str_eq, to_lower,
};
use crate::value::{
    coalesce_value, deep, deep_entries, deep_items, spec_coalesce, ConfigValue, Order, SpecValue,
};

verus! {

/// The view of an optional string.
pub open spec fn opt_view(o: Option<String>) -> Option<Seq<char>> {
    match o {
        Some(s) => Some(s@),
        None => None,
    }
}

/// A decimal fraction literal: an optional minus sign, digits, one dot,
/// digits.
pub open spec fn is_num_literal(s: Seq<char>) -> bool {
    let t = if s.len() > 0 && s[0] == '-' {
        s.drop_first()
    } else {
        s
    };
    let d = first_pos(t, '.');
    &&& 0 < d < t.len() - 1
    &&& all_digits(t.subrange(0, d))
    &&& all_digits(t.subrange(d + 1, t.len() as int))
}

/// The typed value a plain text stands for: booleans and numbers are
/// recognised, anything else stays text.
pub open spec fn parsed_scalar(value: Seq<char>) -> SpecValue {
    if value == "true"@ {
        SpecValue::Bool(true)
    } else if value == "false"@ {
        SpecValue::Bool(false)
    } else if is_int_literal(value) {
        SpecValue::Int(int_value(value) as i64)
    } else if is_num_literal(value) {
        SpecValue::Num(value)
    } else {
        SpecValue::Text(value)
    }
}

/// Whether the characters of `s` between `from` and `to` are all digits,
/// with at least one.
fn digits_between(s: &str, from: usize, to: usize) -> (r: bool)
    requires
        from <= to <= s@.len(),
    ensures
        r == all_digits(s@.subrange(from as int, to as int)),
{
    let ghost d = s@.subrange(from as int, to as int);
    if from == to {
        return false;
    }
    let mut i: usize = from;
    while i < to
        invariant
            from <= i <= to <= s@.len(),
            d == s@.subrange(from as int, to as int),
            forall|j: int| from <= j < i ==> '0' <= #[trigger] s@[j] <= '9',
        decreases to - i,
    {
        let c = s.get_char(i);
        if c < '0' || c > '9' {
            proof {
                assert(d[i - from] == s@[i as int]);
            }
            return false;
        }
        i = i + 1;
    }
    proof {
        assert forall|j: int| 0 <= j < d.len() implies '0' <= #[trigger] d[j] <= '9' by {
            assert(d[j] == s@[from + j]);
        }
    }
    true
}

/// Whether the text is a decimal fraction literal.
fn is_num_text(s: &str) -> (r: bool)
    ensures
        r == is_num_literal(s@),
{
    let n = s.unicode_len();
    let neg = n > 0 && s.get_char(0) == '-';
    let start: usize = if neg {
        1
    } else {
        0
    };
    let ghost t = if neg {
        s@.drop_first()
    } else {
        s@
    };
    proof {
        assert(t =~= s@.subrange(start as int, s@.len() as int));
        crate::strutil::lemma_first_pos(t, '.');
    }
    let mut dot: Option<usize> = None;
    let mut i: usize = start;
    while i < n
        invariant
            n == s@.len(),
            start <= i <= n,
            t == s@.subrange(start as int, s@.len() as int),
            s@.len() > 0 && s@[0] == '-' ==> start == 1,
            !(s@.len() > 0 && s@[0] == '-') ==> start == 0,
            match dot {
                Some(p) => start <= p < i && s@[p as int] == '.' && forall|j: int|
                    start <= j < p ==> s@[j] != '.',
                None => forall|j: int| start <= j < i ==> s@[j] != '.',
            },
        decreases n - i,
    {
        if s.get_char(i) == '.' {
            match dot {
                None => {
                    dot = Some(i);
                },
                Some(p) => {
                    proof {
                        assert(t[p - start] == '.');
                        assert forall|j: int| 0 <= j < p - start implies t[j] != '.' by {
                            assert(t[j] == s@[start + j]);
                        }
                        crate::strutil::lemma_first_pos(t, '.');
                        let d = first_pos(t, '.');
                        assert(d == p - start);
                        let tail = t.subrange(d + 1, t.len() as int);
                        assert(tail[i - p - 1] == s@[i as int]);
                        assert('.' < '0');
                        assert(0 <= i - p - 1 < tail.len());
                        assert(tail[i - p - 1] == '.');
                        assert(!all_digits(tail)) by {
                            if all_digits(tail) {
                                assert('0' <= tail[i - p - 1] <= '9');
                                assert(false);
                            }
                        }
                        if start == 1 {
                            assert(t =~= s@.drop_first());
                        } else {
                            assert(t =~= s@);
                        }
                        assert(!is_num_literal(s@));
                    }
                    return false;
                },
            }
        }
        i = i + 1;
    }
    match dot {
        None => {
            proof {
                assert forall|j: int| 0 <= j < t.len() implies t[j] != '.' by {
                    assert(t[j] == s@[start + j]);
                }
                assert(first_pos(t, '.') == -1) by {
                    crate::strutil::lemma_first_pos(t, '.');
                    if first_pos(t, '.') != -1 {
                        assert(t[first_pos(t, '.')] == '.');
                    }
                }
            }
            false
        },
        Some(p) => {
            proof {
                assert(t[p - start] == '.');
                assert forall|j: int| 0 <= j < p - start implies t[j] != '.' by {
                    assert(t[j] == s@[start + j]);
                }
                crate::strutil::lemma_first_pos(t, '.');
                assert(first_pos(t, '.') == p - start);
            }
            if !(p > start && p + 1 < n) {
                proof {
                    let d = first_pos(t, '.');
                    assert(!(0 < d < t.len() - 1));
                }
                return false;
            }
            let head_ok = digits_between(s, start, p);
            let tail_ok = digits_between(s, p + 1, n);
            proof {
                let d = first_pos(t, '.');
                assert(t.subrange(0, d) =~= s@.subrange(start as int, p as int));
                assert(t.subrange(d + 1, t.len() as int) =~= s@.subrange(
                    p as int + 1,
                    s@.len() as int,
                ));
            }
            head_ok && tail_ok
        },
    }
}

/// Type a plain text value.
pub fn scalar_of_text(value: &str) -> (r: ConfigValue)
    ensures
        r@ == parsed_scalar(value@),
{
    proof {
        reveal_strlit("true");
        reveal_strlit("false");
    }
    if str_eq(value, "true") {
        return ConfigValue::Bool(true);
    }
    if str_eq(value, "false") {
        return ConfigValue::Bool(false);
    }
    match parse_int(value) {
        Some(v) => {
            return ConfigValue::Int(v);
        },
        None => {},
    }
    if is_num_text(value) {
        return ConfigValue::Num(value.to_owned());
    }
    ConfigValue::Text(value.to_owned())
}

/// A value wrapped into nested one-entry trees along a key path.
pub open spec fn nested(path: Seq<Seq<char>>, v: SpecValue) -> SpecValue
    decreases path.len(),
{
    if path.len() == 0 {
        v
    } else {
        SpecValue::Tree(seq![(path[0], nested(path.drop_first(), v))])
    }
}

/// Wrap a value into nested one-entry trees along a key path.
pub fn make_nested(path: &Vec<String>, leaf: ConfigValue) -> (r: ConfigValue)
    ensures
        r@ == nested(path@.map_values(|s: String| s@), leaf@),
{
    let ghost model = path@.map_values(|s: String| s@);
    let mut v = leaf;
    let mut i: usize = path.len();
    while i > 0
        invariant
            i <= path@.len(),
            model == path@.map_values(|s: String| s@),
            deep(v) == nested(model.subrange(i as int, model.len() as int), deep(leaf)),
        decreases i,
    {
        i = i - 1;
        let mut entries: Vec<(String, ConfigValue)> = Vec::new();
        entries.push((path[i].clone(), v));
        let next = ConfigValue::Tree(entries);
        proof {
            let suffix = model.subrange(i as int, model.len() as int);
            assert(suffix.drop_first() =~= model.subrange(i as int + 1, model.len() as int));
            assert(deep_entries(next->Tree_0@) =~= seq![(model[i as int], nested(
                suffix.drop_first(),
                deep(leaf),
            ))]);
        }
        v = next;
    }
    proof {
        assert(model.subrange(0, model.len() as int) =~= model);
    }
    v
}

/// A data source reading the process environment.
///
/// With a prefix, only variables whose names begin with the prefix and an
/// underscore contribute, under their remaining name; without one, every
/// variable contributes. Names are lower-cased and nested at every
/// underscore; values are typed by `parsed_scalar`.
pub struct Environment {
    pub prefix: Option<String>,
}

/// One environment variable's contribution to the layer, if any.
pub open spec fn env_entry(
    name: Seq<char>,
    value: Seq<char>,
    prefix: Option<Seq<char>>,
) -> Option<SpecValue> {
    let ln = lower_spec(name);
    match prefix {
        Some(p) => {
            let lp = lower_spec(p) + seq!['_'];
            if starts_with_spec(ln, lp) {
                Some(
                    nested(
                        split_spec(ln.subrange(lp.len() as int, ln.len() as int), '_'),
                        parsed_scalar(value),
                    ),
                )
            } else {
                None
            }
        },
        None => Some(nested(split_spec(ln, '_'), parsed_scalar(value))),
    }
}

/// The environment layer: each contributing variable merged in turn onto
/// an empty tree, later variables winning.
pub open spec fn env_layer_spec(
    vars: Seq<(Seq<char>, Seq<char>)>,
    prefix: Option<Seq<char>>,
) -> SpecValue
    decreases vars.len(),
{
    if vars.len() == 0 {
        SpecValue::Tree(Seq::empty())
    } else {
        match env_entry(vars.last().0, vars.last().1, prefix) {
            Some(t) => spec_coalesce(env_layer_spec(vars.drop_last(), prefix), t, Order::Merge),
            None => env_layer_spec(vars.drop_last(), prefix),
        }
    }
}

impl Environment {
    pub fn new(prefix: Option<String>) -> (r: Self)
        ensures
            r.prefix == prefix,
    {
        Environment { prefix }
    }

    /// The prefix this source filters by.
    pub open spec fn spec_prefix(self) -> Option<Seq<char>> {
        opt_view(self.prefix)
    }

    /// The layer this source contributes, given the environment's
    /// variables in order. Never fails.
    pub fn layer(&self, vars: &Vec<(String, String)>) -> (r: ConfigValue)
        ensures
            r@ == env_layer_spec(
                vars@.map_values(|p: (String, String)| (p.0@, p.1@)),
                self.spec_prefix(),
            ),
    {
        let ghost model = vars@.map_values(|p: (String, String)| (p.0@, p.1@));
        let ghost sp = self.spec_prefix();
        let mut acc = ConfigValue::Tree(Vec::new());
        proof {
            assert(deep_entries(acc->Tree_0@) =~= Seq::<(Seq<char>, SpecValue)>::empty());
            assert(model.subrange(0, 0) =~= Seq::<(Seq<char>, Seq<char>)>::empty());
        }
        let mut i: usize = 0;
        while i < vars.len()
            invariant
                i <= vars@.len(),
                model == vars@.map_values(|p: (String, String)| (p.0@, p.1@)),
                sp == self.spec_prefix(),
                deep(acc) == env_layer_spec(model.subrange(0, i as int), sp),
            decreases vars@.len() - i,
        {
            let ghost pre = model.subrange(0, i as int);
            let ghost next = model.subrange(0, i as int + 1);
            proof {
                assert(next.drop_last() =~= pre);
                assert(next.last() == model[i as int]);
            }
            let name = &vars[i].0;
            let value = &vars[i].1;
            let ln = to_lower(name.as_str());
            let contribution: Option<ConfigValue> = match &self.prefix {
                Some(p) => {
                    let lp = to_lower(p.as_str()).concat("_");
                    proof {
                        reveal_strlit("_");
                        assert(lp@ =~= lower_spec(p@) + seq!['_']);
                    }
                    if starts_with(ln.as_str(), lp.as_str()) {
                        let m = lp.as_str().unicode_len();
                        let rest = ln.as_str().substring_char(m, ln.as_str().unicode_len());
                        let path = split_char(rest, '_');
                        let leaf = scalar_of_text(value.as_str());
                        Some(make_nested(&path, leaf))
                    } else {
                        None
                    }
                },
                None => {
                    let path = split_char(ln.as_str(), '_');
                    let leaf = scalar_of_text(value.as_str());
                    Some(make_nested(&path, leaf))
                },
            };
            match contribution {
                Some(t) => {
                    proof {
                        assert(Some(deep(t)) == env_entry(model[i as int].0, model[i as int].1, sp));
                    }
                    acc = coalesce_value(&acc, &t, Order::Merge);
                },
                None => {
                    proof {
                        assert(env_entry(model[i as int].0, model[i as int].1, sp) is None);
                    }
                },
            }
            i = i + 1;
        }
        proof {
            assert(model.subrange(0, model.len() as int) =~= model);
        }
        acc
    }
}

/// A file-backed data source; its format follows from the path's
/// extension.
pub struct File {
    pub path: String,
}

impl File {
    pub fn new(path: String) -> (r: Self)
        ensures
            r.path == path,
    {
        File { path }
    }

    /// The layer this source contributes, given the file's text: the text
    /// parsed in the format the path names, to exactly that text's tree.
    /// An unusable extension is fatal, and so is text that does not
    /// parse.
    pub fn layer(&self, text: &str) -> (r: Result<ConfigValue, DataSourceError>)
        ensures
            match spec_file_format(self.path@) {
                Some(fmt) => {
                    &&& spec_accepts(fmt, text@) ==> (r matches Ok(v) && v@ == spec_tree_of(
                        fmt,
                        text@,
                    ))
                    &&& !spec_accepts(fmt, text@) ==> (r matches Err(e) && e is Fatal
                        && e.spec_error() is ParseError)
                },
                None => r matches Err(e) && e is Fatal && (match spec_extension(self.path@) {
                    None => e.spec_error() matches Error::UnknownFileType { path } && path@
                        == self.path@,
                    Some(x) => e.spec_error() matches Error::UnknownFileExtension { ext } && ext@
                        == lower_spec(x),
                }),
            },
    {
        let fmt = match classify_path(&self.path) {
            Ok(f) => f,
            Err(e) => {
                return Err(DataSourceError::Fatal(e));
            },
        };
        match parse_text(fmt, text) {
            Some(v) => Ok(v),
            None => Err(DataSourceError::Fatal(Error::ParseError(self.path.clone()))),
        }
    }
}

/// The nesting path a native key names: lower-cased, with every
/// underscore taken as a dot, then split at the dots.
pub open spec fn k8s_path(k: Seq<char>) -> Seq<Seq<char>> {
    split_spec(replace_spec(lower_spec(k), '_', '.'), '.')
}

/// Compute the nesting path of a native key.
fn k8s_path_of(k: &str) -> (r: Vec<String>)
    ensures
        r@.map_values(|s: String| s@) == k8s_path(k@),
{
    let low = to_lower(k);
    let dotted = replace_char(low.as_str(), '_', '.');
    split_char(dotted.as_str(), '.')
}

/// A native data layer: each entry nested along its key's path and typed,
/// merged in order, later entries winning.
pub open spec fn k8s_layer_spec(pairs: Seq<(Seq<char>, SpecValue)>) -> SpecValue
    decreases pairs.len(),
{
    if pairs.len() == 0 {
        SpecValue::Tree(Seq::empty())
    } else {
        spec_coalesce(
            k8s_layer_spec(pairs.drop_last()),
            nested(k8s_path(pairs.last().0), pairs.last().1),
            Order::Merge,
        )
    }
}

/// A data source reading a named config map.
pub struct ConfigMap {
    pub name: String,
    pub namespace: Option<String>,
}

impl ConfigMap {
    pub fn new(name: String, namespace: Option<String>) -> (r: Self)
        ensures
            r.name == name,
            r.namespace == namespace,
    {
        ConfigMap { name, namespace }
    }

    /// The layer this source contributes, given the object's data, or a
    /// recoverable failure where the object is absent.
    pub fn layer(&self, data: Option<&Vec<(String, String)>>) -> (r: Result<
        ConfigValue,
        DataSourceError,
    >)
        ensures
            match data {
                None => r matches Err(e) && e is Recoverable && (
                e.spec_error() matches Error::ConfigMapDoesNotExist(n) && n@ == self.name@),
                Some(pairs) => r matches Ok(v) && v@ == k8s_layer_spec(
                    pairs@.map_values(|p: (String, String)| (p.0@, parsed_scalar(p.1@))),
                ),
            },
    {
        let pairs = match data {
            None => {
                return Err(
                    DataSourceError::Recoverable(Error::ConfigMapDoesNotExist(self.name.clone())),
                );
            },
            Some(pairs) => pairs,
        };
        let ghost model = pairs@.map_values(|p: (String, String)| (p.0@, parsed_scalar(p.1@)));
        let mut acc = ConfigValue::Tree(Vec::new());
        proof {
            assert(deep_entries(acc->Tree_0@) =~= Seq::<(Seq<char>, SpecValue)>::empty());
            assert(model.subrange(0, 0) =~= Seq::<(Seq<char>, SpecValue)>::empty());
        }
        let mut i: usize = 0;
        while i < pairs.len()
            invariant
                i <= pairs@.len(),
                model == pairs@.map_values(|p: (String, String)| (p.0@, parsed_scalar(p.1@))),
                deep(acc) == k8s_layer_spec(model.subrange(0, i as int)),
            decreases pairs@.len() - i,
        {
            let ghost pre = model.subrange(0, i as int);
            let ghost next = model.subrange(0, i as int + 1);
            proof {
                assert(next.drop_last() =~= pre);
                assert(next.last() == model[i as int]);
            }
            let path = k8s_path_of(pairs[i].0.as_str());
            let leaf = scalar_of_text(pairs[i].1.as_str());
            let t = make_nested(&path, leaf);
            acc = coalesce_value(&acc, &t, Order::Merge);
            i = i + 1;
        }
        proof {
            assert(model.subrange(0, model.len() as int) =~= model);
        }
        Ok(acc)
    }
}

/// Relies on String::from_utf8: decodes exactly the valid UTF-8 byte
/// sequences, to the characters vstd's model gives them.
#[verifier::external_body]
fn utf8_to_string(bytes: &Vec<u8>) -> (r: Option<String>)
    ensures
        (r is Some) == vstd::utf8::valid_utf8(bytes@),
        r matches Some(s) ==> s@ == vstd::utf8::decode_utf8(bytes@),
{
    String::from_utf8(bytes.clone()).ok()
}

/// A secret entry's value: its raw bytes, with a decoded-text sibling
/// where the bytes are valid UTF-8.
pub open spec fn secret_value_spec(bytes: Seq<u8>) -> SpecValue {
    let arr = SpecValue::Sequence(Seq::new(bytes.len(), |i: int| SpecValue::Int(bytes[i] as i64)));
    if vstd::utf8::valid_utf8(bytes) {
        SpecValue::Tree(
            seq![
                ("bytes"@, arr),
                ("string"@, SpecValue::Text(vstd::utf8::decode_utf8(bytes))),
            ],
        )
    } else {
        SpecValue::Tree(seq![("bytes"@, arr)])
    }
}

/// Build a secret entry's value.
fn secret_value(bytes: &Vec<u8>) -> (r: ConfigValue)
    ensures
        r@ == secret_value_spec(bytes@),
{
    let mut arr: Vec<ConfigValue> = Vec::new();
    let mut i: usize = 0;
    while i < bytes.len()
        invariant
            i <= bytes@.len(),
            arr@.len() == i,
            forall|j: int| 0 <= j < i ==> deep(#[trigger] arr@[j]) == SpecValue::Int(bytes@[j] as i64),
        decreases bytes@.len() - i,
    {
        arr.push(ConfigValue::Int(bytes[i] as i64));
        i = i + 1;
    }
    let seqv = ConfigValue::Sequence(arr);
    proof {
        assert(deep_items(seqv->Sequence_0@) =~= Seq::new(
            bytes@.len(),
            |j: int| SpecValue::Int(bytes@[j] as i64),
        ));
    }
    let mut entries: Vec<(String, ConfigValue)> = Vec::new();
    entries.push((String::from_str("bytes"), seqv));
    match utf8_to_string(bytes) {
        Some(s) => {
            entries.push((String::from_str("string"), ConfigValue::Text(s)));
        },
        None => {},
    }
    let out = ConfigValue::Tree(entries);
    proof {
        if vstd::utf8::valid_utf8(bytes@) {
            assert(deep_entries(out->Tree_0@) =~= secret_value_spec(bytes@)->Tree_0);
        } else {
            assert(deep_entries(out->Tree_0@) =~= secret_value_spec(bytes@)->Tree_0);
        }
    }
    out
}

/// A data source reading a named secret.
pub struct Secret {
    pub name: String,
    pub namespace: Option<String>,
}

impl Secret {
    pub fn new(name: String, namespace: Option<String>) -> (r: Self)
        ensures
            r.name == name,
            r.namespace == namespace,
    {
        Secret { name, namespace }
    }

    /// The layer this source contributes, given the object's data, or a
    /// recoverable failure where the object is absent.
    pub fn layer(&self, data: Option<&Vec<(String, Vec<u8>)>>) -> (r: Result<
        ConfigValue,
        DataSourceError,
    >)
        ensures
            match data {
                None => r matches Err(e) && e is Recoverable && (
                e.spec_error() matches Error::SecretDoesNotExist(n) && n@ == self.name@),
                Some(pairs) => r matches Ok(v) && v@ == k8s_layer_spec(
                    pairs@.map_values(|p: (String, Vec<u8>)| (p.0@, secret_value_spec(p.1@))),
                ),
            },
    {
        let pairs = match data {
            None => {
                return Err(
                    DataSourceError::Recoverable(Error::SecretDoesNotExist(self.name.clone())),
                );
            },
            Some(pairs) => pairs,
        };
        let ghost model = pairs@.map_values(|p: (String, Vec<u8>)| (p.0@, secret_value_spec(p.1@)));
        let mut acc = ConfigValue::Tree(Vec::new());
        proof {
            assert(deep_entries(acc->Tree_0@) =~= Seq::<(Seq<char>, SpecValue)>::empty());
            assert(model.subrange(0, 0) =~= Seq::<(Seq<char>, SpecValue)>::empty());
        }
        let mut i: usize = 0;
        while i < pairs.len()
            invariant
                i <= pairs@.len(),
                model == pairs@.map_values(|p: (String, Vec<u8>)| (p.0@, secret_value_spec(p.1@))),
                deep(acc) == k8s_layer_spec(model.subrange(0, i as int)),
            decreases pairs@.len() - i,
        {
            let ghost pre = model.subrange(0, i as int);
            let ghost next = model.subrange(0, i as int + 1);
            proof {
                assert(next.drop_last() =~= pre);
                assert(next.last() == model[i as int]);
            }
            let path = k8s_path_of(pairs[i].0.as_str());
            let leaf = secret_value(&pairs[i].1);
            let t = make_nested(&path, leaf);
            acc = coalesce_value(&acc, &t, Order::Merge);
            i = i + 1;
        }
        proof {
            assert(model.subrange(0, model.len() as int) =~= model);
        }
        Ok(acc)
    }
}

/// One configuration source, of any of the four kinds.
pub enum Source {
    File(File),
    Environment(Environment),
    ConfigMap(ConfigMap),
    Secret(Secret),
}

/// The snapshot assembled from an accumulated value and the remaining
/// sources' outcomes: each layer merges onto the accumulated value in
/// turn, a recoverable failure skips its layer, and a fatal one aborts
/// the assembly with its error.
pub open spec fn snapshot_from(
    acc: SpecValue,
    outs: Seq<Result<ConfigValue, DataSourceError>>,
) -> Result<SpecValue, Error>
    decreases outs.len(),
{
    if outs.len() == 0 {
        Ok(acc)
    } else {
        match outs[0] {
            Result::Err(e) => if e is Fatal {
                Err(e.spec_error())
            } else {
                snapshot_from(acc, outs.drop_first())
            },
            Result::Ok(layer) => snapshot_from(
                spec_coalesce(acc, deep(layer), Order::Merge),
                outs.drop_first(),
            ),
        }
    }
}

/// The snapshot the outcomes assemble, starting from an empty tree.
pub open spec fn snapshot_spec(outs: Seq<Result<ConfigValue, DataSourceError>>) -> Result<
    SpecValue,
    Error,
> {
    snapshot_from(SpecValue::Tree(Seq::empty()), outs)
}

/// An ordered collection of sources, with the watch loop's single start
/// permit.
pub struct SourceRegistry {
    pub sources: Vec<Source>,
    pub watch_taken: bool,
}

impl SourceRegistry {
    /// Whether watching has already been started.
    pub open spec fn spec_watching(self) -> bool {
        self.watch_taken
    }

    pub fn new(sources: Vec<Source>) -> (r: Self)
        ensures
            r.sources == sources,
            !r.spec_watching(),
    {
        SourceRegistry { sources, watch_taken: false }
    }

    /// Take the one permit to start watching. Watching may begin at most
    /// once per registry; a second attempt fails and changes nothing.
    pub fn begin_watch(&mut self) -> (r: Result<(), Error>)
        ensures
            old(self).spec_watching() ==> r is Err && *final (self) == *old(self),
            !old(self).spec_watching() ==> r is Ok && final (self).sources == old(self).sources
                && final (self).spec_watching(),
    {
        if self.watch_taken {
            return Err(Error::SystemError(String::from_str("watch already started")));
        }
        self.watch_taken = true;
        Ok(())
    }

    /// Merge the sources' produced layers in registration order into one
    /// snapshot: recoverable failures skip their layer, the first fatal
    /// failure aborts with its error.
    pub fn as_snapshot(&self, outcomes: Vec<Result<ConfigValue, DataSourceError>>) -> (r: Result<
        ConfigValue,
        Error,
    >)
        requires
            outcomes@.len() == self.sources@.len(),
        ensures
            match snapshot_spec(outcomes@) {
                Ok(sv) => r matches Ok(v) && v@ == sv,
                Err(e) => r matches Err(e2) && e2 == e,
            },
    {
        let ghost full = outcomes@;
        let mut rest = outcomes;
        let mut acc = ConfigValue::Tree(Vec::new());
        proof {
            assert(deep_entries(acc->Tree_0@) =~= Seq::<(Seq<char>, SpecValue)>::empty());
        }
        while rest.len() > 0
            invariant
                full == outcomes@,
                snapshot_spec(full) == snapshot_from(deep(acc), rest@),
            decreases rest@.len(),
        {
            let ghost before = rest@;
            let o = rest.remove(0);
            proof {
                assert(before.drop_first() =~= rest@);
                assert(before[0] == o);
            }
            match o {
                Ok(layer) => {
                    acc = coalesce_value(&acc, &layer, Order::Merge);
                },
                Err(e) => {
                    if e.is_fatal() {
                        proof {
                            assert(snapshot_from(deep(acc), before) == Err::<SpecValue, Error>(
                                e.spec_error(),
                            ));
                        }
                        return Err(e.into_error());
                    }
                },
            }
        }
        proof {
            assert(rest@.len() == 0);
        }
        Ok(acc)
    }
}

/// Law: assembly is ordered and right-biased at the source level. Where
/// the sources so far assemble to a snapshot, one more source merges its
/// layer onto that snapshot (so later sources win), a recoverable failure
/// leaves it unchanged, and a fatal failure aborts with that error.
pub proof fn lemma_snapshot_order(
    outs: Seq<Result<ConfigValue, DataSourceError>>,
    x: Result<ConfigValue, DataSourceError>,
)
    ensures
        snapshot_spec(outs) matches Ok(sv) ==> snapshot_spec(outs.push(x)) == (match x {
            Result::Ok(layer) => Ok(spec_coalesce(sv, deep(layer), Order::Merge)),
            Result::Err(e) => if e is Fatal {
                Err::<SpecValue, Error>(e.spec_error())
            } else {
                Ok(sv)
            },
        }),
{
    lemma_snapshot_from_snoc(SpecValue::Tree(Seq::empty()), outs, x);
}

proof fn lemma_snapshot_from_snoc(
    acc: SpecValue,
    outs: Seq<Result<ConfigValue, DataSourceError>>,
    x: Result<ConfigValue, DataSourceError>,
)
    ensures
        snapshot_from(acc, outs) matches Ok(sv) ==> snapshot_from(acc, outs.push(x)) == (match x {
            Result::Ok(layer) => Ok(spec_coalesce(sv, deep(layer), Order::Merge)),
            Result::Err(e) => if e is Fatal {
                Err::<SpecValue, Error>(e.spec_error())
            } else {
                Ok(sv)
            },
        }),
    decreases outs.len(),
{
    reveal_with_fuel(snapshot_from, 3);
    if outs.len() == 0 {
        assert(outs.push(x)[0] == x);
        assert(outs.push(x).drop_first() =~= Seq::<Result<ConfigValue, DataSourceError>>::empty());
    } else {
        assert(outs.push(x)[0] == outs[0]);
        assert(outs.push(x).drop_first() =~= outs.drop_first().push(x));
        match outs[0] {
            Result::Err(e) => {
                if !(e is Fatal) {
                    lemma_snapshot_from_snoc(acc, outs.drop_first(), x);
                }
            },
            Result::Ok(layer) => {
                lemma_snapshot_from_snoc(
                    spec_coalesce(acc, deep(layer), Order::Merge),
                    outs.drop_first(),
                    x,
                );
            },
        }
    }
}

/// Sorted by flag position.
pub open spec fn sorted_by_index(s: Seq<(Source, u64)>) -> bool {
    forall|i: int, j: int| 0 <= i < j < s.len() ==> (#[trigger] s[i]).1 <= (#[trigger] s[j]).1
}

/// The position of an entry carrying a least index.
fn min_index(v: &Vec<(Source, u64)>) -> (r: usize)
    requires
        v@.len() > 0,
    ensures
        r < v@.len(),
        forall|j: int| 0 <= j < v@.len() ==> v@[r as int].1 <= (#[trigger] v@[j]).1,
{
    let mut best: usize = 0;
    let mut i: usize = 1;
    while i < v.len()
        invariant
            best < i <= v@.len(),
            forall|j: int| 0 <= j < i ==> v@[best as int].1 <= (#[trigger] v@[j]).1,
        decreases v@.len() - i,
    {
        if v[i].1 < v[best].1 {
            best = i;
        }
        i = i + 1;
    }
    best
}

/// Order flag-derived sources by where their flags stood on the command
/// line, so that interleaved flags of different kinds keep their relative
/// position.
pub fn order_sources(items: Vec<(Source, u64)>) -> (r: Vec<(Source, u64)>)
    ensures
        sorted_by_index(r@),
        r@.to_multiset() == items@.to_multiset(),
{
    broadcast use vstd::seq_lib::group_to_multiset_ensures;
    broadcast use vstd::multiset::group_multiset_axioms;

    let ghost full = items@;
    let mut rest = items;
    let mut out: Vec<(Source, u64)> = Vec::new();
    proof {
        assert(out@.to_multiset().add(rest@.to_multiset()) =~= full.to_multiset());
    }
    while rest.len() > 0
        invariant
            sorted_by_index(out@),
            out@.to_multiset().add(rest@.to_multiset()) == full.to_multiset(),
            forall|i: int, j: int|
                0 <= i < out@.len() && 0 <= j < rest@.len() ==> (#[trigger] out@[i]).1 <= (
                #[trigger] rest@[j]).1,
        decreases rest@.len(),
    {
        let m = min_index(&rest);
        let ghost before = rest@;
        let x = rest.remove(m);
        proof {
            assert(before[m as int] == x);
            assert(rest@ == before.remove(m as int));
            vstd::seq_lib::to_multiset_build(out@, x);
            vstd::seq_lib::to_multiset_remove(before, m as int);
            vstd::seq_lib::to_multiset_contains(before, x);
            assert(before.contains(x)) by {
                assert(before[m as int] == x);
            }
            assert(before.to_multiset().count(x) > 0);
            assert(out@.push(x).to_multiset() =~= out@.to_multiset().insert(x));
            assert(rest@.to_multiset() =~= before.to_multiset().remove(x));
            assert(out@.push(x).to_multiset().add(rest@.to_multiset()) =~= full.to_multiset());
            assert forall|j: int| 0 <= j < rest@.len() implies x.1 <= (#[trigger] rest@[j]).1 by {
                if j < m {
                    assert(rest@[j] == before[j]);
                } else {
                    assert(rest@[j] == before[j + 1]);
                }
            }
        }
        out.push(x);
    }
    out
}

/// Whether a `kind`/argument pair names a source: the kind must be one of
/// the four, and all but the environment need an argument.
pub open spec fn valid_source_spec(kind: Seq<char>, arg: Option<Seq<char>>) -> bool {
    ||| (kind == "file"@ && arg is Some)
    ||| kind == "environment"@
    ||| (kind == "k8s-configmap"@ && arg is Some)
    ||| (kind == "k8s-secret"@ && arg is Some)
}

/// Whether a source is the one a `kind`/argument pair names. An empty or
/// missing environment argument means no prefix.
pub open spec fn source_matches(
    s: Source,
    kind: Seq<char>,
    arg: Option<Seq<char>>,
    ns: Option<Seq<char>>,
) -> bool {
    match s {
        Source::File(f) => kind == "file"@ && (arg matches Some(a) && f.path@ == a),
        Source::Environment(e) => kind == "environment"@ && opt_view(e.prefix) == (match arg {
            None => None,
            Some(a) => if a.len() == 0 {
                None::<Seq<char>>
            } else {
                Some(a)
            },
        }),
        Source::ConfigMap(c) => kind == "k8s-configmap"@ && (arg matches Some(a) && c.name@ == a)
            && opt_view(c.namespace) == ns,
        Source::Secret(c) => kind == "k8s-secret"@ && (arg matches Some(a) && c.name@ == a)
            && opt_view(c.namespace) == ns,
    }
}

/// Build the source a `kind`/argument pair names, if it names one.
pub fn source_from_spec(kind: &str, arg: Option<&str>, namespace: &Option<String>) -> (r: Option<
    Source,
>)
    ensures
        (r is Some) == valid_source_spec(kind@, spec_arg_view(arg)),
        r matches Some(s) ==> source_matches(
            s,
            kind@,
            spec_arg_view(arg),
            opt_view(*namespace),
        ),
{
    proof {
        reveal_strlit("file");
        reveal_strlit("environment");
        reveal_strlit("k8s-configmap");
        reveal_strlit("k8s-secret");
    }
    let ns: Option<String> = match namespace {
        Some(n) => Some(n.clone()),
        None => None,
    };
    if str_eq(kind, "file") {
        match arg {
            Some(a) => {
                proof {
                    assert(valid_source_spec(kind@, spec_arg_view(arg)));
                }
                Some(Source::File(File::new(a.to_owned())))
            },
            None => {
                proof {
                    reveal_strlit("file");
                    reveal_strlit("environment");
                    assert("file"@.len() == 4);
                    assert("environment"@.len() == 11);
                    assert(kind@ != "environment"@);
                    assert(!valid_source_spec(kind@, spec_arg_view(arg)));
                }
                None
            },
        }
    } else if str_eq(kind, "environment") {
        let prefix: Option<String> = match arg {
            None => None,
            Some(a) => {
                if a.unicode_len() == 0 {
                    None
                } else {
                    Some(a.to_owned())
                }
            },
        };
        Some(Source::Environment(Environment::new(prefix)))
    } else if str_eq(kind, "k8s-configmap") {
        match arg {
            Some(a) => Some(Source::ConfigMap(ConfigMap::new(a.to_owned(), ns))),
            None => None,
        }
    } else if str_eq(kind, "k8s-secret") {
        match arg {
            Some(a) => Some(Source::Secret(Secret::new(a.to_owned(), ns))),
            None => None,
        }
    } else {
        None
    }
}

/// The view of an optional borrowed string.
pub open spec fn spec_arg_view(arg: Option<&str>) -> Option<Seq<char>> {
    match arg {
        Some(a) => Some(a@),
        None => None,
    }
}

/// The kind written before the first `:` of a source entry, or the whole
/// entry.
pub open spec fn entry_kind(e: Seq<char>) -> Seq<char> {
    if first_pos(e, ':') == -1 {
        e
    } else {
        e.subrange(0, first_pos(e, ':'))
    }
}

/// The argument written after the first `:` of a source entry, if any.
pub open spec fn entry_arg(e: Seq<char>) -> Option<Seq<char>> {
    if first_pos(e, ':') == -1 {
        None
    } else {
        Some(e.subrange(first_pos(e, ':') + 1, e.len() as int))
    }
}

/// Parse a comma-separated list of `kind:argument` source entries, in
/// order. An entry naming no source refuses the whole list.
pub fn parse_source_list(value: &str, namespace: &Option<String>) -> (r: Option<Vec<Source>>)
    ensures
        ({
            let entries = split_spec(value@, ',');
            &&& (r is Some) == (forall|i: int|
                0 <= i < entries.len() ==> valid_source_spec(
                    entry_kind(#[trigger] entries[i]),
                    entry_arg(entries[i]),
                ))
            &&& r matches Some(v) ==> v@.len() == entries.len() && (forall|i: int|
                0 <= i < entries.len() ==> source_matches(
                    #[trigger] v@[i],
                    entry_kind(entries[i]),
                    entry_arg(entries[i]),
                    opt_view(*namespace),
                ))
        }),
{
    let ghost entries = split_spec(value@, ',');
    let pieces = split_char(value, ',');
    let mut out: Vec<Source> = Vec::new();
    let mut i: usize = 0;
    while i < pieces.len()
        invariant
            i <= pieces@.len(),
            entries == split_spec(value@, ','),
            pieces@.map_values(|p: String| p@) == entries,
            out@.len() == i,
            forall|j: int|
                0 <= j < i ==> valid_source_spec(entry_kind(#[trigger] entries[j]), entry_arg(entries[j])),
            forall|j: int|
                0 <= j < i ==> source_matches(
                    #[trigger] out@[j],
                    entry_kind(entries[j]),
                    entry_arg(entries[j]),
                    opt_view(*namespace),
                ),
        decreases pieces@.len() - i,
    {
        let piece = &pieces[i];
        proof {
            assert(piece@ == entries[i as int]);
            crate::strutil::lemma_first_pos(piece@, ':');
        }
        let n = piece.as_str().unicode_len();
        let (kind, arg): (&str, Option<&str>) = match crate::strutil::find_char(
            piece.as_str(),
            ':',
        ) {
            None => (piece.as_str(), None),
            Some(p) => {
                let head = piece.as_str().substring_char(0, p);
                let tail = piece.as_str().substring_char(p + 1, n);
                (head, Some(tail))
            },
        };
        match source_from_spec(kind, arg, namespace) {
            Some(s) => {
                out.push(s);
            },
            None => {
                return None;
            },
        }
        i = i + 1;
    }
    Some(out)
}

} // verus!
