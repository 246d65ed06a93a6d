//! The audio of each phone and the features computed from it.

use crate::channels::contents;
use crate::name_map::NameMap;
use vstd::prelude::*;
use vstd::string::StringExecFns;

verus! {

/// Every class has at least one signal.
pub open spec fn no_class_is_empty<S>(data: Map<Seq<char>, Vec<S>>) -> bool {
    forall|class: Seq<char>| #[trigger] data.contains_key(class) ==> data[class]@.len() > 0
}

/// Adds the signals of a class, unless there are none.
pub fn add_class<S>(data: &mut NameMap<Vec<S>>, class: String, signals: Vec<S>)
    requires
        old(data).wf(),
    ensures
        final(data).wf(),
        final(data)@ == (if signals@.len() == 0 {
            old(data)@
        } else {
            old(data)@.insert(class@, signals)
        }),
        no_class_is_empty(old(data)@) ==> no_class_is_empty(final(data)@),
{
    if signals.len() > 0 {
        data.insert(class, signals);
    }
}

/// `pncc` can be asked for the features of each of these signals.
pub open spec fn accepts<S, F, G: Fn(&S) -> F>(pncc: G, signals: Seq<S>) -> bool {
    forall|i: int| 0 <= i < signals.len() ==> call_requires(pncc, (&#[trigger] signals[i],))
}

/// `features` holds what `pncc` gives for each of the signals, in their order.
pub open spec fn features_of<S, F, G: Fn(&S) -> F>(
    pncc: G,
    signals: Seq<S>,
    features: Seq<F>,
) -> bool {
    &&& features.len() == signals.len()
    &&& forall|i: int|
        0 <= i < signals.len() ==> call_ensures(pncc, (&signals[i],), #[trigger] features[i])
}

/// `r` is the label of the phone, with the features of its signals.
pub open spec fn phone_features<S, F, G: Fn(&S) -> F>(
    pncc: G,
    phone: Seq<char>,
    signals: Seq<S>,
    r: (String, Vec<F>),
) -> bool {
    &&& r.0@ == phone
    &&& features_of(pncc, signals, r.1@)
}

/// The features of a phone: those of each of its 16000 Hz signals, as `pncc`
/// computes them.
pub fn map_phone_pncc<S, F, G: Fn(&S) -> F>(phone: &str, vec_signal: &[S], pncc: &G) -> (r: (
    String,
    Vec<F>,
))
    requires
        accepts(*pncc, vec_signal@),
    ensures
        phone_features(*pncc, phone@, vec_signal@, r),
        r.0@ == phone@,
        r.1@.len() == vec_signal@.len(),
        forall|i: int|
            0 <= i < vec_signal@.len() ==> call_ensures(*pncc, (&vec_signal@[i],), #[trigger] r.1@[i]),
{
    let mut vec_pncc: Vec<F> = Vec::new();
    for i in 0..vec_signal.len()
        invariant
            accepts(*pncc, vec_signal@),
            vec_pncc@.len() == i,
            forall|k: int|
                0 <= k < i ==> call_ensures(*pncc, (&vec_signal@[k],), #[trigger] vec_pncc@[k]),
    {
        let signal: &S = &vec_signal[i];
        vec_pncc.push(pncc(signal));
    }
    (phone.to_string(), vec_pncc)
}

/// Features can be asked for as soon as `pncc` takes each signal, however many there
/// are.
pub proof fn signals_that_can_be_asked_for<S, F, G: Fn(&S) -> F>(pncc: G, signals: Seq<S>)
    ensures
        (forall|i: int| 0 <= i < signals.len() ==> call_requires(pncc, (&#[trigger] signals[i],)))
            <==> accepts(pncc, signals),
{
}

/// Each signal gives one place of the features, at its own place among the signals:
/// what `pncc` answers for that signal.
pub proof fn each_signal_gives_its_features<S, F, G: Fn(&S) -> F>(
    pncc: G,
    phone: Seq<char>,
    signals: Seq<S>,
    r: (String, Vec<F>),
    i: int,
)
    requires
        phone_features(pncc, phone, signals, r),
        0 <= i < signals.len(),
    ensures
        r.0@ == phone,
        r.1@.len() == signals.len(),
        call_ensures(pncc, (&signals[i],), r.1@[i]),
{
}

/// `pncc` gives one answer for each of these signals, however often it is asked.
pub open spec fn is_deterministic_on<S, F, G: Fn(&S) -> F>(pncc: G, signals: Seq<S>) -> bool {
    forall|i: int, f: F, g: F|
        0 <= i < signals.len() && #[trigger] call_ensures(pncc, (&signals[i],), f)
            && #[trigger] call_ensures(pncc, (&signals[i],), g) ==> f == g
}

/// The label of a phone has no influence on its features, provided that `pncc` is
/// deterministic.
pub proof fn label_does_not_change_features<S, F, G: Fn(&S) -> F>(
    pncc: G,
    signals: Seq<S>,
    phone: Seq<char>,
    r: (String, Vec<F>),
    other_phone: Seq<char>,
    other: (String, Vec<F>),
)
    requires
        is_deterministic_on(pncc, signals),
        phone_features(pncc, phone, signals, r),
        phone_features(pncc, other_phone, signals, other),
    ensures
        r.1@ == other.1@,
{
    assert forall|i: int| 0 <= i < signals.len() implies r.1@[i] == other.1@[i] by {
        assert(call_ensures(pncc, (&signals[i],), r.1@[i]));
        assert(call_ensures(pncc, (&signals[i],), other.1@[i]));
    }
    assert(r.1@ =~= other.1@);
}

/// The features of a signal depend on that signal alone, provided that `pncc` is
/// deterministic: those of two lists of signals, one after the other, are those of
/// the joined list.
pub proof fn joined_signals_join_features<S, F, G: Fn(&S) -> F>(
    pncc: G,
    phone: Seq<char>,
    first: Seq<S>,
    first_r: (String, Vec<F>),
    second: Seq<S>,
    second_r: (String, Vec<F>),
    joined_r: (String, Vec<F>),
)
    requires
        is_deterministic_on(pncc, first + second),
        phone_features(pncc, phone, first, first_r),
        phone_features(pncc, phone, second, second_r),
        phone_features(pncc, phone, first + second, joined_r),
    ensures
        joined_r.1@ == first_r.1@ + second_r.1@,
{
    let joined = first + second;
    let parts = first_r.1@ + second_r.1@;
    assert forall|i: int| 0 <= i < joined.len() implies joined_r.1@[i] == parts[i] by {
        assert(call_ensures(pncc, (&joined[i],), joined_r.1@[i]));
        if i < first.len() {
            assert(call_ensures(pncc, (&first[i],), first_r.1@[i]));
        } else {
            let k = i - first.len();
            assert(call_ensures(pncc, (&second[k],), second_r.1@[k]));
        }
    }
    assert(joined_r.1@ =~= parts);
}

/// The features of every phone.
pub fn extract_features<S, F, G: Fn(&S) -> F>(data: &NameMap<Vec<S>>, pncc: &G) -> (features: NameMap<
    Vec<F>,
>)
    requires
        data.wf(),
        forall|phone: Seq<char>| #[trigger] data@.contains_key(phone) ==> accepts(*pncc, data@[phone]@),
    ensures
        features.wf(),
        features@.dom() == data@.dom(),
        features.names() == data.names(),
        forall|phone: Seq<char>| #[trigger]
            features@.contains_key(phone) ==> features_of(*pncc, data@[phone]@, features@[phone]@),
        forall|phone: Seq<char>| #[trigger]
            data@.contains_key(phone) ==> features@[phone]@.len() == data@[phone]@.len(),
        forall|phone: Seq<char>, i: int|
            data@.contains_key(phone) && 0 <= i < data@[phone]@.len() ==> call_ensures(
                *pncc,
                (&data@[phone]@[i],),
                #[trigger] features@[phone]@[i],
            ),
        no_class_is_empty(data@) ==> no_class_is_empty(features@),
{
    let mut features: NameMap<Vec<F>> = NameMap::new();
    let n: usize = data.len();
    for i in 0..n
        invariant
            data.wf(),
            n == data.names().len(),
            forall|phone: Seq<char>| #[trigger]
                data@.contains_key(phone) ==> accepts(*pncc, data@[phone]@),
            features.wf(),
            forall|phone: Seq<char>| #[trigger]
                features@.contains_key(phone) <==> data.names().take(i as int).contains(phone),
            forall|phone: Seq<char>| #[trigger]
                features@.contains_key(phone) ==> features_of(*pncc, data@[phone]@, features@[phone]@),
    {
        let ghost name = data.names()[i as int];
        let ghost head = data.names().take(i as int);
        let (phone, vec_pncc) = map_phone_pncc(data.name(i), data.value(i).as_slice(), pncc);
        features.insert(phone, vec_pncc);
        assert(data.names().take(i + 1) =~= head.push(name));
        assert forall|p: Seq<char>| #[trigger]
            features@.contains_key(p) <==> data.names().take(i + 1).contains(p) by {
            if head.contains(p) {
                let k = choose|k: int| 0 <= k < head.len() && head[k] == p;
                assert(head.push(name)[k] == p);
            }
            if p == name {
                assert(head.push(name)[i as int] == p);
            }
        }
    }
    assert(data.names().take(data.names().len() as int) =~= data.names());
    assert(features@.dom() =~= data@.dom());
    proof {
        features.domain_fixes_the_order(data);
        assert forall|phone: Seq<char>| #[trigger]
            data@.contains_key(phone) implies features@[phone]@.len() == data@[phone]@.len() by {
            assert(features@.contains_key(phone));
        }
        assert forall|phone: Seq<char>, i: int|
            data@.contains_key(phone) && 0 <= i < data@[phone]@.len() implies call_ensures(
            *pncc,
            (&data@[phone]@[i],),
            #[trigger] features@[phone]@[i],
        ) by {
            assert(features@.contains_key(phone));
            assert(features_of(*pncc, data@[phone]@, features@[phone]@));
        }
    }
    features
}

/// The features of all phones in one list, phone by phone.
pub fn pooled<F: Clone>(features: &NameMap<Vec<F>>) -> (all: Vec<F>)
    requires
        features.wf(),
    ensures
        all@.len() == contents(features.values()).flatten().len(),
        forall|k: int|
            0 <= k < all@.len() ==> cloned(contents(features.values()).flatten()[k], #[trigger] all@[k]),
{
    let ghost parts = contents(features.values());
    let mut all: Vec<F> = Vec::new();
    proof {
        parts.lemma_flatten_and_flatten_alt_are_equivalent();
        assert(parts.take(0) =~= Seq::empty());
    }
    let n: usize = features.len();
    for i in 0..n
        invariant
            features.wf(),
            n == features.names().len(),
            parts == contents(features.values()),
            all@.len() == parts.take(i as int).flatten_alt().len(),
            forall|k: int|
                0 <= k < all@.len() ==> cloned(parts.take(i as int).flatten_alt()[k], #[trigger] all@[k]),
    {
        assert(parts.take(i + 1).drop_last() =~= parts.take(i as int));
        let part: &Vec<F> = features.value(i);
        all.extend_from_slice(part.as_slice());
    }
    assert(parts.take(parts.len() as int) =~= parts);
    all
}

/// What is said of features that hold a value which is not a number, or else an
/// infinite one.
pub fn feature_fault(phone: &str, any_nan: bool, any_infinite: bool) -> (message: Option<String>)
    ensures
        match message {
            Some(text) => {
                ||| any_nan && text@ == "error nan on phone "@ + phone@
                ||| !any_nan && any_infinite && text@ == "error infinite on phone "@ + phone@
            },
            None => !any_nan && !any_infinite,
        },
{
    if any_nan {
        Some("error nan on phone ".to_string().concat(phone))
    } else if any_infinite {
        Some("error infinite on phone ".to_string().concat(phone))
    } else {
        None
    }
}

/// The line that reports what was recognised in a file.
pub fn prediction_line(filename: &str, output: &str) -> (line: String)
    ensures
        line@ == filename@ + " '"@ + output@ + "'"@,
{
    filename.to_string().concat(" '").concat(output).concat("'")
}

} // verus!
