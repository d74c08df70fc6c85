//! Choosing which planned passes a cut runs, and in what order: the stale-plan check and the
//! matching of each selected key to exactly one planned pass.
use vstd::prelude::*;
use crate::pass_key::{key_text, PassKey, PassKeyView};
use crate::transport::Settings;

verus! {

/// One pass the caller wants cut, named by its key. The order of selections is the order the
/// passes are cut.
#[derive(Clone, Debug)]
pub struct PassSelection {
    pub key: PassKey,
    pub settings: Settings,
}

/// What to cut, and how strictly.
#[derive(Clone, Debug)]
pub struct PlanOptions {
    pub passes: Vec<PassSelection>,
    /// When set, refuse if the document has changed since the caller planned against it.
    pub expect_revision: Option<u64>,
    pub allow_out_of_bounds: bool,
}

/// Why a selection cannot be cut.
#[derive(Debug)]
pub enum SelectionError {
    /// The document changed since the plan was made.
    StalePlan { expected: u64, actual: u64 },
    /// No planned pass has this key.
    UnknownPass(PassKey),
    /// One pass named twice.
    DuplicatePass(PassKey),
}

/// A `SelectionError` with its key as a view.
pub enum SelectionErrorView {
    StalePlan { expected: u64, actual: u64 },
    UnknownPass(PassKeyView),
    DuplicatePass(PassKeyView),
}

impl View for SelectionError {
    type V = SelectionErrorView;

    open spec fn view(&self) -> SelectionErrorView {
        match self {
            SelectionError::StalePlan { expected, actual } => SelectionErrorView::StalePlan {
                expected: *expected,
                actual: *actual,
            },
            SelectionError::UnknownPass(k) => SelectionErrorView::UnknownPass(k@),
            SelectionError::DuplicatePass(k) => SelectionErrorView::DuplicatePass(k@),
        }
    }
}

/// The keys of the selected passes, in selection order.
pub open spec fn selected_keys(s: Seq<PassSelection>) -> Seq<PassKeyView> {
    s.map_values(|p: PassSelection| p.key@)
}

/// The keys, each as its view.
pub open spec fn keys_view(s: Seq<PassKey>) -> Seq<PassKeyView> {
    s.map_values(|k: PassKey| k@)
}

/// The position of the first planned pass with key `k`.
pub open spec fn first_index_of_key(keys: Seq<PassKeyView>, k: PassKeyView) -> Option<int>
    decreases keys.len(),
{
    if keys.len() == 0 {
        None
    } else {
        match first_index_of_key(keys.drop_last(), k) {
            Some(i) => Some(i),
            None => if keys.last() == k {
                Some(keys.len() - 1)
            } else {
                None
            },
        }
    }
}

/// What a selection resolves to: for each selected key, in order, the position of the planned
/// pass it names; refused at the first key that is named a second time or that names no
/// planned pass.
pub open spec fn resolve_selection(planned: Seq<PassKeyView>, selected: Seq<PassKeyView>) -> Result<
    Seq<int>,
    SelectionErrorView,
>
    decreases selected.len(),
{
    if selected.len() == 0 {
        Ok(seq![])
    } else {
        match resolve_selection(planned, selected.drop_last()) {
            Err(e) => Err(e),
            Ok(found) => {
                let k = selected.last();
                if selected.drop_last().contains(k) {
                    Err(SelectionErrorView::DuplicatePass(k))
                } else {
                    match first_index_of_key(planned, k) {
                        None => Err(SelectionErrorView::UnknownPass(k)),
                        Some(i) => Ok(found.push(i)),
                    }
                }
            },
        }
    }
}

/// What a cut's selection decides: a stale plan is refused first, then the selection is
/// resolved key by key.
pub open spec fn selection_verdict(
    planned: Seq<PassKeyView>,
    revision: u64,
    expect_revision: Option<u64>,
    selected: Seq<PassKeyView>,
) -> Result<Seq<int>, SelectionErrorView> {
    match expect_revision {
        Some(expected) if expected != revision => Err(
            SelectionErrorView::StalePlan { expected, actual: revision },
        ),
        _ => resolve_selection(planned, selected),
    }
}

/// The positions, as integers.
pub open spec fn positions(s: Seq<usize>) -> Seq<int> {
    s.map_values(|i: usize| i as int)
}

fn index_of_key(planned: &Vec<PassKey>, k: &PassKey) -> (r: Option<usize>)
    ensures
        match r {
            Some(i) => first_index_of_key(keys_view(planned@), k@) == Some(i as int),
            None => first_index_of_key(keys_view(planned@), k@) is None,
        },
{
    let ghost kv = keys_view(planned@);
    let mut found: Option<usize> = None;
    let mut i: usize = 0;
    while i < planned.len()
        invariant
            i <= planned.len(),
            kv == keys_view(planned@),
            match found {
                Some(j) => first_index_of_key(kv.take(i as int), k@) == Some(j as int),
                None => first_index_of_key(kv.take(i as int), k@) is None,
            },
        decreases planned.len() - i,
    {
        assert(kv.take(i + 1).drop_last() =~= kv.take(i as int));
        if found.is_none() && planned[i] == *k {
            found = Some(i);
        }
        i = i + 1;
    }
    assert(kv.take(planned.len() as int) =~= kv);
    found
}

fn selected_before(selected: &Vec<PassSelection>, n: usize, k: &PassKey) -> (r: bool)
    requires
        n <= selected.len(),
    ensures
        r == selected_keys(selected@).take(n as int).contains(k@),
{
    let ghost sk = selected_keys(selected@).take(n as int);
    let mut j: usize = 0;
    while j < n
        invariant
            j <= n,
            n <= selected.len(),
            sk == selected_keys(selected@).take(n as int),
            forall|m: int| 0 <= m < j ==> sk[m] != k@,
        decreases n - j,
    {
        if selected[j].key == *k {
            assert(sk[j as int] == k@);
            return true;
        }
        j = j + 1;
    }
    false
}

/// The planned passes a selection names, as positions among `planned` in the order they are
/// cut, or why the selection cannot be cut: a plan made against another revision of the
/// document, a key named twice, or a key no planned pass has.
pub fn select_passes(planned: &Vec<PassKey>, revision: u64, opts: &PlanOptions) -> (r: Result<
    Vec<usize>,
    SelectionError,
>)
    ensures
        ({
            let verdict = selection_verdict(
                keys_view(planned@),
                revision,
                opts.expect_revision,
                selected_keys(opts.passes@),
            );
            match r {
                Ok(v) => verdict == Ok::<Seq<int>, SelectionErrorView>(positions(v@)),
                Err(e) => verdict == Err::<Seq<int>, SelectionErrorView>(e@),
            }
        }),
{
    match opts.expect_revision {
        Some(expected) => {
            if expected != revision {
                return Err(SelectionError::StalePlan { expected, actual: revision });
            }
        },
        None => {},
    }
    let ghost sk = selected_keys(opts.passes@);
    let ghost pk = keys_view(planned@);
    let mut chosen: Vec<usize> = Vec::new();
    assert(sk.take(0) =~= Seq::<PassKeyView>::empty());
    assert(positions(chosen@) =~= Seq::<int>::empty());
    let mut i: usize = 0;
    while i < opts.passes.len()
        invariant
            i <= opts.passes.len(),
            sk == selected_keys(opts.passes@),
            pk == keys_view(planned@),
            opts.expect_revision matches Some(e) ==> e == revision,
            resolve_selection(pk, sk.take(i as int)) == Ok::<Seq<int>, SelectionErrorView>(
                positions(chosen@),
            ),
        decreases opts.passes.len() - i,
    {
        let sel = &opts.passes[i];
        assert(sk.take(i + 1).drop_last() =~= sk.take(i as int));
        assert(sk.take(i + 1).last() == sel.key@);
        if selected_before(&opts.passes, i, &sel.key) {
            proof {
                assert(resolve_selection(pk, sk.take(i + 1)) == Err::<Seq<int>, SelectionErrorView>(
                    SelectionErrorView::DuplicatePass(sel.key@),
                ));
                lemma_refusal_persists(pk, sk, i as int + 1);
            }
            return Err(SelectionError::DuplicatePass(sel.key.duplicate()));
        }
        match index_of_key(planned, &sel.key) {
            None => {
                proof {
                    assert(resolve_selection(pk, sk.take(i + 1)) == Err::<Seq<int>, SelectionErrorView>(
                        SelectionErrorView::UnknownPass(sel.key@),
                    ));
                    lemma_refusal_persists(pk, sk, i as int + 1);
                }
                return Err(SelectionError::UnknownPass(sel.key.duplicate()));
            },
            Some(j) => {
                let ghost before = chosen@;
                chosen.push(j);
                assert(positions(chosen@) =~= positions(before).push(j as int));
                assert(!sk.take(i + 1).drop_last().contains(sk.take(i + 1).last()));
                assert(resolve_selection(pk, sk.take(i + 1)) == Ok::<Seq<int>, SelectionErrorView>(
                    positions(chosen@),
                ));
            },
        }
        i = i + 1;
    }
    assert(sk.take(opts.passes.len() as int) =~= sk);
    Ok(chosen)
}

proof fn lemma_refusal_persists(planned: Seq<PassKeyView>, selected: Seq<PassKeyView>, n: int)
    requires
        0 <= n <= selected.len(),
        resolve_selection(planned, selected.take(n)) is Err,
    ensures
        resolve_selection(planned, selected) == resolve_selection(planned, selected.take(n)),
    decreases selected.len() - n,
{
    if n < selected.len() {
        assert(selected.take(n + 1).drop_last() =~= selected.take(n));
        lemma_refusal_persists(planned, selected, n + 1);
    } else {
        assert(selected.take(n) =~= selected);
    }
}

/// The stable identifier of each refusal.
pub open spec fn selection_error_code(e: SelectionErrorView) -> Seq<char> {
    match e {
        SelectionErrorView::StalePlan { .. } => "stale_plan"@,
        SelectionErrorView::UnknownPass(_) => "unknown_pass"@,
        SelectionErrorView::DuplicatePass(_) => "duplicate_pass"@,
    }
}

/// What an operator reads for each refusal; a key is written in its one string form.
pub open spec fn selection_error_message(e: SelectionErrorView) -> Seq<char> {
    match e {
        SelectionErrorView::StalePlan { .. } => "the document changed since this cut was planned"@,
        SelectionErrorView::UnknownPass(k) => "no planned pass is called "@ + key_text(k),
        SelectionErrorView::DuplicatePass(k) => "the pass "@ + key_text(k)
            + " is selected more than once"@,
    }
}

impl SelectionError {
    /// The stable identifier a caller branches on instead of matching the sentence.
    pub fn code(&self) -> (r: &'static str)
        ensures
            r@ == selection_error_code(self@),
    {
        match self {
            SelectionError::StalePlan { .. } => "stale_plan",
            SelectionError::UnknownPass(_) => "unknown_pass",
            SelectionError::DuplicatePass(_) => "duplicate_pass",
        }
    }

    /// The refusal in the words an operator reads.
    pub fn message(&self) -> (r: String)
        ensures
            r@ == selection_error_message(self@),
    {
        match self {
            SelectionError::StalePlan { .. } => String::from_str(
                "the document changed since this cut was planned",
            ),
            SelectionError::UnknownPass(k) => {
                let mut r = String::from_str("no planned pass is called ");
                let t = k.to_text();
                r.append(t.as_str());
                r
            },
            SelectionError::DuplicatePass(k) => {
                let mut r = String::from_str("the pass ");
                let t = k.to_text();
                r.append(t.as_str());
                r.append(" is selected more than once");
                r
            },
        }
    }
}

proof fn lemma_first_index_of_key(keys: Seq<PassKeyView>, k: PassKeyView)
    ensures
        first_index_of_key(keys, k) matches Some(i) ==> 0 <= i < keys.len() && keys[i] == k,
        first_index_of_key(keys, k) is None ==> !keys.contains(k),
    decreases keys.len(),
{
    if keys.len() > 0 {
        lemma_first_index_of_key(keys.drop_last(), k);
        if first_index_of_key(keys, k) is None {
            assert forall|j: int| 0 <= j < keys.len() implies keys[j] != k by {
                if j < keys.len() - 1 {
                    assert(keys.drop_last()[j] == keys[j]);
                }
            }
        }
    }
}

/// A selection that resolves names each planned pass at most once, and cuts, in selection order,
/// exactly the passes the selected keys name: a pass selected twice is refused, never cut twice.
pub proof fn lemma_a_resolved_selection_cuts_each_pass_once(
    planned: Seq<PassKeyView>,
    selected: Seq<PassKeyView>,
)
    ensures
        resolve_selection(planned, selected) matches Ok(found) ==> {
            &&& found.len() == selected.len()
            &&& forall|i: int|
                0 <= i < found.len() ==> 0 <= #[trigger] found[i] < planned.len() && planned[found[i]]
                    == selected[i]
            &&& forall|i: int, j: int|
                0 <= i < j < found.len() ==> #[trigger] found[i] != #[trigger] found[j]
        },
    decreases selected.len(),
{
    if selected.len() > 0 {
        let rest = selected.drop_last();
        lemma_a_resolved_selection_cuts_each_pass_once(planned, rest);
        let k = selected.last();
        lemma_first_index_of_key(planned, k);
        if resolve_selection(planned, selected) is Ok {
            let found = resolve_selection(planned, selected)->Ok_0;
            let prev = resolve_selection(planned, rest)->Ok_0;
            assert(found == prev.push(first_index_of_key(planned, k)->0));
            assert forall|i: int, j: int| 0 <= i < j < found.len() implies #[trigger] found[i]
                != #[trigger] found[j] by {
                if j == found.len() - 1 {
                    assert(planned[found[i]] == rest[i]);
                    if found[i] == found[j] {
                        assert(rest.contains(k)) by {
                            assert(rest[i] == k);
                        }
                    }
                } else {
                    assert(found[i] == prev[i] && found[j] == prev[j]);
                }
            }
        }
    }
}

} // verus!
