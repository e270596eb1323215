//! The A320 MCDU command pages: how their entries are laid out in pairs, and
//! how a line select key turns the scratchpad into a queued message element.
use vstd::prelude::*;
use vstd::string::*;
use crate::arguments::{arg_values, parse_mcdu_arg, spec_parse_mcdu_arg, ArgValue, MessageElement};
use crate::session::{assoc_map, keys_unique};
use crate::text::str_eq;
use crate::translator::ArgType;

verus! {

broadcast use vstd::string::group_string_axioms;

/// A command entry of a page: label, element identifier, argument type.
pub type McduEntry = (String, String, Option<ArgType>);

/// What an entry shows and sends.
pub open spec fn entry_view(e: McduEntry) -> (Seq<char>, Seq<char>, Option<ArgType>) {
    (e.0@, e.1@, e.2)
}

/// Entry `k` of the list, if there is one.
pub open spec fn entry_at(entries: Seq<McduEntry>, k: int) -> Option<(Seq<char>, Seq<char>, Option<ArgType>)> {
    if 0 <= k < entries.len() {
        Some(entry_view(entries[k]))
    } else {
        None
    }
}

/// The view of an optional entry.
pub open spec fn opt_entry_view(o: Option<McduEntry>) -> Option<(Seq<char>, Seq<char>, Option<ArgType>)> {
    match o {
        Some(e) => Some(entry_view(e)),
        None => None,
    }
}

fn copy_entry(e: &McduEntry) -> (r: McduEntry)
    ensures
        entry_view(r) == entry_view(*e),
{
    (e.0.clone(), e.1.clone(), e.2)
}

/// The entries of a page in left/right pairs, two per line, with empty lines
/// added up to four.
pub fn pair_entries(entries: &[McduEntry]) -> (r: Vec<(Option<McduEntry>, Option<McduEntry>)>)
    requires
        entries@.len() < usize::MAX,
    ensures
        r@.len() == (if (entries@.len() + 1) / 2 < 4 {
            4
        } else {
            (entries@.len() + 1) / 2
        }),
        forall|k: int|
            0 <= k < r@.len() ==> opt_entry_view((#[trigger] r@[k]).0) == entry_at(entries@, 2 * k)
                && opt_entry_view(r@[k].1) == entry_at(entries@, 2 * k + 1),
{
    let mut pairs: Vec<(Option<McduEntry>, Option<McduEntry>)> = Vec::new();
    let mut idx: usize = 0;
    while idx < entries.len()
        invariant
            idx <= entries@.len() + 1,
            entries@.len() < usize::MAX,
            idx % 2 == 0,
            pairs@.len() == idx / 2,
            idx < entries@.len() ==> idx <= entries@.len(),
            forall|k: int|
                0 <= k < pairs@.len() ==> opt_entry_view((#[trigger] pairs@[k]).0) == entry_at(
                    entries@,
                    2 * k,
                ) && opt_entry_view(pairs@[k].1) == entry_at(entries@, 2 * k + 1),
        decreases entries@.len() + 1 - idx,
    {
        let left = Some(copy_entry(&entries[idx]));
        let right = if idx + 1 < entries.len() {
            Some(copy_entry(&entries[idx + 1]))
        } else {
            None
        };
        pairs.push((left, right));
        idx = idx + 2;
    }
    proof {
        assert(pairs@.len() == (entries@.len() + 1) / 2);
    }
    while pairs.len() < 4
        invariant
            pairs@.len() >= (entries@.len() + 1) / 2,
            pairs@.len() <= (if (entries@.len() + 1) / 2 < 4 {
                4
            } else {
                (entries@.len() + 1) / 2
            }),
            forall|k: int|
                0 <= k < pairs@.len() ==> opt_entry_view((#[trigger] pairs@[k]).0) == entry_at(
                    entries@,
                    2 * k,
                ) && opt_entry_view(pairs@[k].1) == entry_at(entries@, 2 * k + 1),
        decreases 4 - pairs@.len(),
    {
        pairs.push((None, None));
    }
    pairs
}

/// What the MCDU input holds: the scratchpad, the last value typed for
/// each element, and the elements queued for the DCDU.
#[derive(Debug, Clone)]
pub struct McduInput {
    pub scratchpad: String,
    /// Element identifier and the value last entered for it; no identifier
    /// occurs twice.
    pub field_values: Vec<(String, String)>,
    pub pending_elements: Vec<MessageElement>,
}

/// The field values by identifier.
pub open spec fn fields_view(v: Seq<(String, String)>) -> Seq<(Seq<char>, Seq<char>)> {
    v.map_values(|p: (String, String)| (p.0@, p.1@))
}

/// The queued elements by identifier and argument values.
pub open spec fn queue_view(v: Seq<MessageElement>) -> Seq<(Seq<char>, Seq<ArgValue>)> {
    v.map_values(|e: MessageElement| (e.id@, arg_values(e.args@)))
}

impl McduInput {
    /// No identifier holds two field values.
    pub open spec fn wf(&self) -> bool {
        keys_unique(fields_view(self.field_values@))
    }

    /// An empty input.
    pub fn new() -> (r: McduInput)
        ensures
            r.wf(),
            r.scratchpad@ == Seq::<char>::empty(),
            r.field_values@.len() == 0,
            r.pending_elements@.len() == 0,
    {
        McduInput { scratchpad: String::new(), field_values: Vec::new(), pending_elements: Vec::new() }
    }

    /// ERASE: clear the scratchpad, the field values and the queue.
    pub fn erase(&mut self)
        ensures
            final(self).wf(),
            final(self).scratchpad@ == Seq::<char>::empty(),
            final(self).field_values@.len() == 0,
            final(self).pending_elements@.len() == 0,
    {
        self.scratchpad = String::new();
        self.field_values = Vec::new();
        self.pending_elements = Vec::new();
    }

    /// The line select key of entry `id` (with argument type `arg`): an
    /// entry with an argument reads it from the scratchpad and does nothing
    /// when it cannot; the element is queued, replacing earlier ones with
    /// the same identifier unless it is free text (DM67) or has no
    /// argument; an entry with an argument records the scratchpad as its
    /// value and clears the scratchpad.
    pub fn press_entry(&mut self, id: &str, arg: Option<ArgType>)
        requires
            old(self).wf(),
        ensures
            final(self).wf(),
            match arg {
                Some(t) => match spec_parse_mcdu_arg(t, old(self).scratchpad@) {
                    None => *final(self) == *old(self),
                    Some(v) => {
                        &&& queue_view(final(self).pending_elements@) == (if id@ == "DM67"@ {
                            queue_view(old(self).pending_elements@)
                        } else {
                            queue_view(old(self).pending_elements@).filter(
                                |e: (Seq<char>, Seq<ArgValue>)| e.0 != id@,
                            )
                        }).push((id@, seq![v]))
                        &&& assoc_map(fields_view(final(self).field_values@)) == assoc_map(
                            fields_view(old(self).field_values@),
                        ).insert(id@, old(self).scratchpad@)
                        &&& final(self).scratchpad@ == Seq::<char>::empty()
                    },
                },
                None => {
                    &&& queue_view(final(self).pending_elements@) == queue_view(
                        old(self).pending_elements@,
                    ).push((id@, Seq::empty()))
                    &&& final(self).field_values == old(self).field_values
                    &&& final(self).scratchpad == old(self).scratchpad
                },
            },
    {
        let mut args: Vec<crate::arguments::CpdlcArgument> = Vec::new();
        match arg {
            Some(t) => match parse_mcdu_arg(t, self.scratchpad.as_str()) {
                Some(a) => {
                    args.push(a);
                },
                None => {
                    return;
                },
            },
            None => {},
        }
        let allow_duplicates = str_eq(id, "DM67") || args.len() == 0;
        let ghost old_queue = queue_view(self.pending_elements@);
        if !allow_duplicates {
            let ghost keep = |e: (Seq<char>, Seq<ArgValue>)| e.0 != id@;
            let mut kept: Vec<MessageElement> = Vec::new();
            let mut old_elems = Vec::new();
            std::mem::swap(&mut old_elems, &mut self.pending_elements);
            proof {
                assert(queue_view(kept@) =~= queue_view(old_elems@.subrange(0, 0)).filter(keep)) by {
                    reveal_with_fuel(Seq::<(Seq<char>, Seq<ArgValue>)>::filter, 1);
                    assert(queue_view(old_elems@.subrange(0, 0)) =~= Seq::<(Seq<char>, Seq<ArgValue>)>::empty());
                }
            }
            let ghost all = old_elems@;
            while old_elems.len() > 0
                invariant
                    old_elems@.len() <= all.len(),
                    old_elems@ == all.subrange(all.len() - old_elems@.len(), all.len() as int),
                    queue_view(all) == old_queue,
                    keep == (|e: (Seq<char>, Seq<ArgValue>)| e.0 != id@),
                    queue_view(kept@) == queue_view(
                        all.subrange(0, all.len() - old_elems@.len()),
                    ).filter(keep),
                decreases old_elems@.len(),
            {
                let ghost k = all.len() - old_elems@.len();
                proof {
                    reveal_with_fuel(Seq::<(Seq<char>, Seq<ArgValue>)>::filter, 1);
                    assert(queue_view(all.subrange(0, k + 1)).drop_last() =~= queue_view(
                        all.subrange(0, k),
                    ));
                    assert(old_elems@[0] == all[k]);
                }
                let e = old_elems.remove(0);
                proof {
                    assert(old_elems@ =~= all.subrange(all.len() - old_elems@.len(), all.len() as int));
                }
                if !str_eq(e.id.as_str(), id) {
                    let ghost before = kept@;
                    kept.push(e);
                    proof {
                        assert(queue_view(kept@) =~= queue_view(before).push(
                            (all[k].id@, arg_values(all[k].args@)),
                        ));
                    }
                }
            }
            proof {
                assert(all.subrange(0, all.len() as int) =~= all);
            }
            self.pending_elements = kept;
        }
        let ghost mid = self.pending_elements@;
        let ghost new_args = args@;
        proof {
            if let Some(t) = arg {
                if let Some(v) = spec_parse_mcdu_arg(t, old(self).scratchpad@) {
                    assert(arg_values(new_args) =~= seq![v]);
                }
            } else {
                assert(arg_values(new_args) =~= Seq::<ArgValue>::empty());
            }
        }
        let e = MessageElement { id: id.to_owned(), args };
        self.pending_elements.push(e);
        proof {
            assert(queue_view(self.pending_elements@) =~= queue_view(mid).push(
                (id@, arg_values(new_args)),
            ));
        }
        if arg.is_some() {
            let value = self.scratchpad.clone();
            self.set_field(id, value);
            self.scratchpad = String::new();
        }
    }

    fn set_field(&mut self, id: &str, value: String)
        requires
            old(self).wf(),
        ensures
            final(self).wf(),
            assoc_map(fields_view(final(self).field_values@)) == assoc_map(
                fields_view(old(self).field_values@),
            ).insert(id@, value@),
            final(self).scratchpad == old(self).scratchpad,
            final(self).pending_elements == old(self).pending_elements,
    {
        let ghost before = fields_view(self.field_values@);
        let mut k: usize = 0;
        while k < self.field_values.len()
            invariant
                k <= self.field_values@.len(),
                before == fields_view(self.field_values@),
                before == fields_view(old(self).field_values@),
                self.scratchpad == old(self).scratchpad,
                self.pending_elements == old(self).pending_elements,
                keys_unique(before),
                forall|j: int| 0 <= j < k ==> (#[trigger] before[j]).0 != id@,
            decreases self.field_values@.len() - k,
        {
            if str_eq(self.field_values[k].0.as_str(), id) {
                let key = self.field_values[k].0.clone();
                self.field_values.set(k, (key, value));
                proof {
                    crate::session::lemma_assoc_update(before, k as int, value@);
                    assert(fields_view(self.field_values@) =~= before.update(
                        k as int,
                        (before[k as int].0, value@),
                    ));
                }
                return;
            }
            k = k + 1;
        }
        self.field_values.push((id.to_owned(), value));
        proof {
            crate::session::lemma_assoc_push(before, id@, value@);
            assert(fields_view(self.field_values@) =~= before.push((id@, value@)));
            assert forall|a: int, b: int|
                0 <= a < before.len() + 1 && 0 <= b < before.len() + 1 && a != b implies fields_view(
                self.field_values@,
            )[a].0 != fields_view(self.field_values@)[b].0 by {
                if a < before.len() && b < before.len() {
                } else if a < before.len() {
                    assert(fields_view(self.field_values@)[a] == before[a]);
                } else {
                    assert(fields_view(self.field_values@)[b] == before[b]);
                }
            }
        }
    }
}

} // verus!
