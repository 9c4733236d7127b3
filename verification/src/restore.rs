//! Restoring the defaults of a device, as far as they can be written.

use vstd::prelude::*;

use crate::commands;
use crate::commands::{
    device_not_found, notify, push_default_write, CommandError, Effect, PvWrite, PvWriteView,
};
use crate::config::DeviceConfig;
use crate::double::Double;
use crate::keys;
use crate::messages::NotificationLevel;
use crate::state::InnerState;
use crate::text;

verus! {

/// The defaults to write for the process variables under `names`: all but the charge itself.
pub open spec fn default_writes(config: DeviceConfig, names: Seq<Seq<char>>, index: nat) -> Seq<
    PvWriteView,
>
    decreases names.len(),
{
    if names.len() == 0 {
        Seq::empty()
    } else {
        let rest = default_writes(config, names.drop_last(), index);
        if names.last() == keys::CHARGE@ {
            rest
        } else {
            rest + commands::default_write(config, names.last(), index)
        }
    }
}

/// Defaults that are being written, one after the other.
#[derive(Clone, Debug)]
pub struct RestoreRun {
    device: String,
    todo: Vec<PvWrite>,
    next: usize,
}

impl RestoreRun {
    pub closed spec fn device_name(self) -> Seq<char> {
        self.device@
    }

    /// What is still to be written.
    pub closed spec fn pending(self) -> Seq<PvWriteView> {
        commands::writes(self.todo@).skip(self.next as int)
    }

    pub closed spec fn wf(self) -> bool {
        self.next <= self.todo@.len()
    }

    /// The next write, if any is left.
    pub fn next_write(&self) -> (res: Option<&PvWrite>)
        requires
            self.wf(),
        ensures
            match res {
                Some(w) => self.pending().len() > 0 && w@ == self.pending()[0],
                None => self.pending().len() == 0,
            },
    {
        if self.next < self.todo.len() {
            Some(&self.todo[self.next])
        } else {
            None
        }
    }

    /// Takes what came of the next write. A failure is reported, and the rest goes on.
    pub fn wrote(&mut self, outcome: Result<(), String>) -> (res: Option<Effect>)
        requires
            old(self).wf(),
            old(self).pending().len() > 0,
        ensures
            final(self).wf(),
            final(self).device_name() == old(self).device_name(),
            final(self).pending() == old(self).pending().skip(1),
            match (outcome, res) {
                (Ok(_), None) => true,
                (Err(e), Some(told)) => told@ == commands::notice(
                    NotificationLevel::Error,
                    "Failed to restore "@ + old(self).pending()[0].pv + ": "@ + e@,
                    old(self).device_name(),
                ),
                _ => false,
            },
    {
        let at: usize = self.next;
        assert(at < self.todo.len());
        self.next = at + 1;
        assert(self.pending() =~= old(self).pending().skip(1));
        match outcome {
            Ok(_) => None,
            Err(e) => Some(
                notify(
                    NotificationLevel::Error,
                    text::cat4(
                        "Failed to restore ",
                        self.todo[at].pv.as_str(),
                        ": ",
                        e.as_str(),
                    ),
                    self.device.as_str(),
                ),
            ),
        }
    }

    /// What the operators are told when every write was tried.
    pub fn finish(&self) -> (res: Effect)
        requires
            self.wf(),
            self.pending().len() == 0,
        ensures
            res@ == commands::notice(
                NotificationLevel::Success,
                "Restored defaults for "@ + self.device_name(),
                self.device_name(),
            ),
    {
        notify(
            NotificationLevel::Success,
            text::cat2("Restored defaults for ", self.device.as_str()),
            self.device.as_str(),
        )
    }
}

/// Whether `run` is about to restore the defaults of a device.
pub open spec fn is_restore_start(state: InnerState, device: Seq<char>, run: RestoreRun) -> bool {
    &&& state.find(device) matches Some(i)
    &&& run.wf()
    &&& run.device_name() == device
    &&& state.devices@[i].config.pvs.keys().no_duplicates()
    &&& run.pending() == default_writes(
        state.devices@[i].config,
        state.devices@[i].config.pvs.keys(),
        state.devices@[i].current_sensitivity as nat,
    )
}

/// Starts to restore the defaults of a device at its current sensitivity.
pub fn begin_restore(device_name: &str, state: &InnerState) -> (res: Result<
    RestoreRun,
    CommandError,
>)
    ensures
        match state.find(device_name@) {
            None => res matches Err(e) && e@ == commands::not_found(device_name@),
            Some(_) => res matches Ok(run) && is_restore_start(*state, device_name@, run),
        },
{
    let device = match state.device(device_name) {
        Some(device) => device,
        None => {
            return Err(device_not_found(device_name));
        },
    };
    let index: usize = device.current_sensitivity;
    let mut todo: Vec<PvWrite> = Vec::new();
    let ghost names = device.config.pvs.keys();
    let count: usize = device.config.pvs.len();
    let mut k: usize = 0;
    assert(commands::writes(todo@) =~= default_writes(device.config, names.take(0), index as nat));
    while k < count
        invariant
            k <= count,
            count == names.len(),
            names == device.config.pvs.keys(),
            commands::writes(todo@) == default_writes(
                device.config,
                names.take(k as int),
                index as nat,
            ),
        decreases names.len() - k,
    {
        let key = device.config.pvs.key_at(k);
        assert(names.take(k as int + 1).drop_last() =~= names.take(k as int));
        if !text::same_text(key, keys::CHARGE) {
            push_default_write(&mut todo, &device.config, key, index);
        }
        k += 1;
    }
    assert(names.take(k as int) =~= names);
    let run = RestoreRun { device: device_name.to_string(), todo, next: 0 };
    assert(run.pending() =~= commands::writes(run.todo@));
    Ok(run)
}

/// The keys among `names` whose default is written: those that are not the charge itself, and have
/// both a process variable and a default.
pub open spec fn written_keys(config: DeviceConfig, names: Seq<Seq<char>>) -> Seq<Seq<char>>
    decreases names.len(),
{
    if names.len() == 0 {
        Seq::empty()
    } else {
        let rest = written_keys(config, names.drop_last());
        if is_written(config, names.last()) {
            rest.push(names.last())
        } else {
            rest
        }
    }
}

/// Whether the default under a key is written.
pub open spec fn is_written(config: DeviceConfig, key: Seq<char>) -> bool {
    key != keys::CHARGE@ && config.pvs@.contains_key(key) && config.defaults@.contains_key(key)
}

/// Restoring the defaults of a device writes each of them once: there is one write for each key
/// that has a process variable and a default, and no other. No key occurs twice in a
/// configuration.
pub proof fn defaults_are_written_once(config: DeviceConfig, names: Seq<Seq<char>>, index: nat)
    requires
        names.no_duplicates(),
    ensures
        written_keys(config, names).no_duplicates(),
        forall|key: Seq<char>| #[trigger]
            written_keys(config, names).contains(key) <==> names.contains(key) && is_written(
                config,
                key,
            ),
        default_writes(config, names, index).len() == written_keys(config, names).len(),
        forall|k: int|
            0 <= k < written_keys(config, names).len() ==> #[trigger] default_writes(
                config,
                names,
                index,
            )[k] == (PvWriteView {
                pv: config.pvs@[written_keys(config, names)[k]]@,
                value: config.defaults@[written_keys(config, names)[k]].value(index),
            }),
    decreases names.len(),
{
    let list = written_keys(config, names);
    if names.len() > 0 {
        let front = names.drop_last();
        let last = names.last();
        assert forall|i: int, j: int|
            0 <= i < front.len() && 0 <= j < front.len() && i != j implies front[i]
            != front[j] by {
            assert(front[i] == names[i] && front[j] == names[j]);
        }
        defaults_are_written_once(config, front, index);
        let rest = written_keys(config, front);
        assert forall|key: Seq<char>| #[trigger]
            list.contains(key) <==> names.contains(key) && is_written(config, key) by {
            if list.contains(key) {
                let k = choose|k: int| 0 <= k < list.len() && list[k] == key;
                if k < rest.len() {
                    assert(rest[k] == key);
                    assert(rest.contains(key));
                    let j = choose|j: int| 0 <= j < front.len() && front[j] == key;
                    assert(names[j] == key);
                } else {
                    assert(names[names.len() - 1] == key);
                }
            }
            if names.contains(key) && is_written(config, key) {
                let j = choose|j: int| 0 <= j < names.len() && names[j] == key;
                if j < front.len() {
                    assert(front[j] == key);
                    assert(rest.contains(key));
                    let k = choose|k: int| 0 <= k < rest.len() && rest[k] == key;
                    assert(list[k] == key);
                } else {
                    assert(list[rest.len() as int] == key);
                }
            }
        }
        assert forall|i: int, j: int|
            0 <= i < list.len() && 0 <= j < list.len() && i != j implies list[i] != list[j] by {
            if i < rest.len() && j < rest.len() {
                assert(list[i] == rest[i] && list[j] == rest[j]);
            } else {
                let k = if i < rest.len() {
                    i
                } else {
                    j
                };
                assert(rest.contains(rest[k]));
                assert(front.contains(rest[k]));
                let m = choose|m: int| 0 <= m < front.len() && front[m] == rest[k];
                assert(names[m] == rest[k]);
            }
        }
        assert forall|k: int| 0 <= k < list.len() implies #[trigger] default_writes(
            config,
            names,
            index,
        )[k] == (PvWriteView {
            pv: config.pvs@[list[k]]@,
            value: config.defaults@[list[k]].value(index),
        }) by {
            if k < rest.len() {
                assert(default_writes(config, names, index)[k] == default_writes(
                    config,
                    front,
                    index,
                )[k]);
                assert(list[k] == rest[k]);
            }
        }
    }
}

/// Restoring the defaults of a device writes every one of them that has a process variable, but for
/// the charge itself, at the current sensitivity, and nothing else.
pub proof fn every_default_is_restored(
    state: InnerState,
    device: Seq<char>,
    run: RestoreRun,
    i: int,
    key: Seq<char>,
    value: Double,
)
    requires
        is_restore_start(state, device, run),
        state.find(device) == Some(i),
        state.devices@[i].config.pvs@.contains_key(key),
        state.devices@[i].config.defaults@.contains_key(key),
        key != "charge"@,
        commands::holds_at(
            state.devices@[i].config.defaults@[key],
            state.devices@[i].current_sensitivity as nat,
            value,
        ),
    ensures
        run.device_name() == device,
        run.pending().contains(PvWriteView { pv: state.devices@[i].config.pvs@[key]@, value }),
        run.pending().len() == state.devices@[i].config.pvs.keys().filter(
            |k: Seq<char>| k != "charge"@ && state.devices@[i].config.defaults@.contains_key(k),
        ).len(),
{
    let config = state.devices@[i].config;
    let names = config.pvs.keys();
    let index = state.devices@[i].current_sensitivity as nat;
    config.pvs.keys_are_domain();
    assert(names.contains(key));
    defaults_are_written_once(config, names, index);
    let list = written_keys(config, names);
    assert(list.contains(key));
    let k = choose|k: int| 0 <= k < list.len() && list[k] == key;
    assert(default_writes(config, names, index)[k] == (PvWriteView {
        pv: config.pvs@[key]@,
        value,
    }));
    assert forall|j: int| 0 <= j < names.len() implies config.pvs@.contains_key(
        #[trigger] names[j],
    ) by {
        assert(names.contains(names[j]));
    }
    lemma_written_count(config, names);
}

proof fn lemma_written_count(config: DeviceConfig, names: Seq<Seq<char>>)
    requires
        forall|j: int| 0 <= j < names.len() ==> config.pvs@.contains_key(#[trigger] names[j]),
    ensures
        written_keys(config, names).len() == names.filter(
            |k: Seq<char>| k != "charge"@ && config.defaults@.contains_key(k),
        ).len(),
    decreases names.len(),
{
    reveal(Seq::filter);
    if names.len() > 0 {
        let front = names.drop_last();
        assert forall|j: int| 0 <= j < front.len() implies config.pvs@.contains_key(
            #[trigger] front[j],
        ) by {
            assert(front[j] == names[j]);
        }
        assert(names.last() == names[names.len() - 1]);
        lemma_written_count(config, front);
    }
}

}
