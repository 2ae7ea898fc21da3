//! What stands in the list of cards, from top to bottom.
use vstd::prelude::*;

verus! {

/// One element of the list.
#[derive(Debug, Clone, Copy, PartialEq, Eq, Structural)]
pub enum ListItem {
    /// The result of the last action.
    Toast,
    /// What is shown where there is no card at all.
    Empty,
    /// What is shown where there are resolved cards only.
    NoPending,
    /// A rule between two elements.
    Separator,
    /// The card of a request that waits, by its place.
    Pending(usize),
    /// The title of the history.
    RecentTitle,
    /// The card of an entry of the history, by its place.
    Resolved(usize),
}

/// The cards of `n` requests that wait, with a separator between each two.
pub open spec fn pending_items(n: nat) -> Seq<ListItem> {
    if n == 0 {
        Seq::empty()
    } else {
        Seq::new(
            (2 * n - 1) as nat,
            |k: int|
                if k % 2 == 0 {
                    ListItem::Pending((k / 2) as usize)
                } else {
                    ListItem::Separator
                },
        )
    }
}

/// The cards of `n` entries of the history, each with a separator before it.
pub open spec fn resolved_items(n: nat) -> Seq<ListItem> {
    Seq::new(
        2 * n,
        |k: int|
            if k % 2 == 0 {
                ListItem::Separator
            } else {
                ListItem::Resolved((k / 2) as usize)
            },
    )
}

/// The list: the result of the last action where there is one, the cards of the
/// requests that wait, and the history with its title.
pub open spec fn items(toast: bool, pending: nat, resolved: nat) -> Seq<ListItem> {
    let head = if toast {
        seq![ListItem::Toast]
    } else {
        Seq::empty()
    };
    if pending == 0 && resolved == 0 {
        head + seq![ListItem::Empty]
    } else {
        head + (if pending == 0 {
            seq![ListItem::NoPending]
        } else {
            pending_items(pending)
        }) + (if resolved == 0 {
            Seq::empty()
        } else {
            seq![ListItem::Separator, ListItem::RecentTitle] + resolved_items(resolved)
        })
    }
}

/// The list for this many requests that wait and entries of the history.
pub fn list_items(toast: bool, pending: usize, resolved: usize) -> (r: Vec<ListItem>)
    ensures
        r@ == items(toast, pending as nat, resolved as nat),
{
    let mut out: Vec<ListItem> = Vec::new();
    if toast {
        out.push(ListItem::Toast);
    }
    let ghost head = out@;
    assert(head =~= if toast {
        seq![ListItem::Toast]
    } else {
        Seq::empty()
    });
    if pending == 0 && resolved == 0 {
        out.push(ListItem::Empty);
        assert(out@ =~= items(toast, 0, 0));
        return out;
    }
    if pending == 0 {
        out.push(ListItem::NoPending);
    }
    let mut i: usize = 0;
    while i < pending
        invariant
            i <= pending,
            pending > 0 ==> out@ == head + pending_items(i as nat),
            pending == 0 ==> out@ == head.push(ListItem::NoPending),
        decreases pending - i,
    {
        if i > 0 {
            out.push(ListItem::Separator);
        }
        out.push(ListItem::Pending(i));
        i += 1;
        assert(out@ =~= head + pending_items(i as nat));
    }
    let ghost cards = out@;
    assert(cards =~= head + (if pending == 0 {
        seq![ListItem::NoPending]
    } else {
        pending_items(pending as nat)
    }));
    if resolved > 0 {
        out.push(ListItem::Separator);
        out.push(ListItem::RecentTitle);
        let ghost titled = cards + seq![ListItem::Separator, ListItem::RecentTitle];
        assert(out@ =~= titled + resolved_items(0));
        let mut j: usize = 0;
        while j < resolved
            invariant
                j <= resolved,
                out@ == titled + resolved_items(j as nat),
            decreases resolved - j,
        {
            out.push(ListItem::Separator);
            out.push(ListItem::Resolved(j));
            j += 1;
            assert(out@ =~= titled + resolved_items(j as nat));
        }
        assert(out@ =~= cards + (seq![ListItem::Separator, ListItem::RecentTitle] + resolved_items(
            resolved as nat,
        )));
    }
    assert(out@ =~= items(toast, pending as nat, resolved as nat));
    out
}

/// Every request that waits has its card in the list.
pub proof fn law_every_request_is_listed(toast: bool, pending: usize, resolved: usize, i: usize)
    requires
        i < pending,
    ensures
        items(toast, pending as nat, resolved as nat).contains(ListItem::Pending(i)),
{
    let all = items(toast, pending as nat, resolved as nat);
    let at: int = (if toast {
        1int
    } else {
        0int
    }) + 2 * i;
    assert(pending_items(pending as nat)[2 * i] == ListItem::Pending(i));
    assert(all[at] == ListItem::Pending(i));
}

/// The list shows each request that waits once and in order, and behind them the
/// title of the history and each of its entries, once and in order. An empty list
/// says so, and so does one of resolved cards alone.
pub proof fn law_list_is_in_order(toast: bool, pending: usize, resolved: usize) -> (at: (int, int))
    ensures
        ({
            let list = items(toast, pending as nat, resolved as nat);
            &&& at.0 == if toast {
                1int
            } else {
                0int
            }
            &&& forall|k: int|
                0 <= k < list.len() ==> {
                    &&& #[trigger] list[k] is Toast <==> toast && k == 0
                    &&& list[k] is Empty ==> pending == 0 && resolved == 0 && k == list.len() - 1
                    &&& list[k] is NoPending ==> pending == 0 && resolved > 0 && k == at.0
                    &&& list[k] matches ListItem::Pending(i) ==> i < pending && k == at.0 + 2 * i
                    &&& list[k] matches ListItem::Resolved(i) ==> i < resolved && k == at.1 + 2 * i
                }
            &&& forall|i: int| 0 <= i < pending ==> #[trigger] list[at.0 + 2 * i] == ListItem::Pending(i as usize)
            &&& forall|i: int| 0 <= i < resolved ==> #[trigger] list[at.1 + 2 * i] == ListItem::Resolved(i as usize)
            &&& pending > 0 ==> at.1 == at.0 + 2 * pending + 2
            &&& pending == 0 ==> at.1 == at.0 + 4
            &&& resolved > 0 ==> list[at.1 - 2] is RecentTitle && list.len() == at.1 + 2 * resolved - 1
            &&& pending == 0 && resolved == 0 ==> list.len() == at.0 + 1 && list[at.0] is Empty
            &&& pending == 0 && resolved > 0 ==> list[at.0] is NoPending
            &&& pending > 0 && resolved == 0 ==> list.len() == at.0 + 2 * pending - 1
        }),
{
    let list = items(toast, pending as nat, resolved as nat);
    let head = if toast {
        1int
    } else {
        0int
    };
    let start = if pending > 0 {
        head + 2 * pending + 2
    } else {
        head + 4
    };
    assert forall|i: int| 0 <= i < pending implies #[trigger] list[head + 2 * i] == ListItem::Pending(
        i as usize,
    ) by {
        assert(pending_items(pending as nat)[2 * i] == ListItem::Pending(i as usize));
    }
    (head, start)
}

} // verus!
