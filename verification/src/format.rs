//! How device ranges, core lists, slots and id lists are written out.
use vstd::prelude::*;

use crate::input::strings_view;
use crate::text::{dec, push_usize};

verus! {

/// `parts` joined with `sep` between each two of them (`[String]::join`).
pub open spec fn join(parts: Seq<Seq<char>>, sep: Seq<char>) -> Seq<char>
    decreases parts.len(),
{
    if parts.len() == 0 {
        Seq::<char>::empty()
    } else if parts.len() == 1 {
        parts[0]
    } else {
        join(parts.drop_last(), sep) + sep + parts.last()
    }
}

pub proof fn lemma_join_step(parts: Seq<Seq<char>>, sep: Seq<char>, i: int)
    requires
        0 <= i < parts.len(),
    ensures
        join(parts.take(i + 1), sep) == if i == 0 {
            parts[0]
        } else {
            join(parts.take(i), sep) + sep + parts[i]
        },
{
    assert(parts.take(i + 1).drop_last() =~= parts.take(i));
    if i == 0 {
        assert(parts.take(1)[0] == parts[0]);
    }
}

pub open spec fn cuda_label(id: usize) -> Seq<char> {
    "cuda:"@ + dec(id as nat)
}

/// `cuda:A,cuda:B,...`, or `none` for no devices.
pub open spec fn cuda_devices_text(devices: Seq<usize>) -> Seq<char> {
    if devices.len() == 0 {
        "none"@
    } else {
        join(devices.map_values(|id: usize| cuda_label(id)), ","@)
    }
}

pub open spec fn dec_usize(id: usize) -> Seq<char> {
    dec(id as nat)
}

/// The core ids joined with `,`.
pub open spec fn core_list_text(cores: Seq<usize>) -> Seq<char> {
    join(cores.map_values(|id: usize| dec_usize(id)), ","@)
}

/// Ids joined with `, `.
pub open spec fn ids_text(ids: Seq<usize>) -> Seq<char> {
    join(ids.map_values(|id: usize| dec_usize(id)), ", "@)
}

pub open spec fn slot_text(slot: Seq<usize>) -> Seq<char> {
    "["@ + core_list_text(slot) + "]"@
}

pub open spec fn slot_views(slots: Seq<Vec<usize>>) -> Seq<Seq<usize>> {
    slots.map_values(|s: Vec<usize>| s@)
}

/// `[a,b],[c,d],...`, or `none` for no slots.
pub open spec fn cpu_slots_text(slots: Seq<Seq<usize>>) -> Seq<char> {
    if slots.len() == 0 {
        "none"@
    } else {
        join(slots.map_values(|s: Seq<usize>| slot_text(s)), ","@)
    }
}

/// A thread limit, or `unlimited`.
pub open spec fn threads_text(t: Option<usize>) -> Seq<char> {
    match t {
        Some(n) => dec(n as nat),
        None => "unlimited"@,
    }
}

/// A core list, or `none`.
pub open spec fn cpu_cores_text(c: Option<Seq<usize>>) -> Seq<char> {
    match c {
        Some(v) => core_list_text(v),
        None => "none"@,
    }
}

/// Appends the numbers of `ids`, each behind `prefix`, joined with `sep`.
fn push_joined_numbers(s: &mut String, ids: &Vec<usize>, prefix: &str, sep: &str)
    ensures
        final(s)@ == old(s)@ + join(
            ids@.map_values(|id: usize| prefix@ + dec(id as nat)),
            sep@,
        ),
{
    let ghost start = s@;
    let ghost parts = ids@.map_values(|id: usize| prefix@ + dec(id as nat));
    let n = ids.len();
    let mut i: usize = 0;
    while i < n
        invariant
            i <= n == ids@.len() == parts.len(),
            parts == ids@.map_values(|id: usize| prefix@ + dec(id as nat)),
            s@ == start + join(parts.take(i as int), sep@),
        decreases n - i,
    {
        proof {
            lemma_join_step(parts, sep@, i as int);
        }
        if i > 0 {
            s.append(sep);
        }
        s.append(prefix);
        push_usize(s, ids[i]);
        i = i + 1;
        proof {
            assert(s@ =~= start + join(parts.take(i as int), sep@));
        }
    }
    assert(parts.take(n as int) =~= parts);
}

/// `cuda:A,cuda:B,...`, or `none`.
pub fn format_cuda_devices(devices: &Vec<usize>) -> (r: String)
    ensures
        r@ == cuda_devices_text(devices@),
{
    let mut s = String::new();
    if devices.len() == 0 {
        s.append("none");
        return s;
    }
    push_joined_numbers(&mut s, devices, "cuda:", ",");
    assert(s@ =~= cuda_devices_text(devices@)) by {
        assert(devices@.map_values(|id: usize| "cuda:"@ + dec(id as nat)) =~= devices@.map_values(
            |id: usize| cuda_label(id),
        ));
    }
    s
}

/// The cores, comma-separated.
pub fn format_cpu_core_list(cores: &Vec<usize>) -> (r: String)
    ensures
        r@ == core_list_text(cores@),
{
    let mut s = String::new();
    push_joined_numbers(&mut s, cores, "", ",");
    assert(s@ =~= core_list_text(cores@)) by {
        assert forall|k: int| 0 <= k < cores@.len() implies ""@ + dec(cores@[k] as nat) == dec_usize(
            cores@[k],
        ) by {
            reveal_strlit("");
            assert(""@ + dec(cores@[k] as nat) =~= dec(cores@[k] as nat));
        }
        assert(cores@.map_values(|id: usize| ""@ + dec(id as nat)) =~= cores@.map_values(
            |id: usize| dec_usize(id),
        ));
    }
    s
}

/// The ids, separated by `, `.
pub fn join_ids(ids: &Vec<usize>) -> (r: String)
    ensures
        r@ == ids_text(ids@),
{
    let mut s = String::new();
    push_joined_numbers(&mut s, ids, "", ", ");
    assert(s@ =~= ids_text(ids@)) by {
        assert forall|k: int| 0 <= k < ids@.len() implies ""@ + dec(ids@[k] as nat) == dec_usize(
            ids@[k],
        ) by {
            reveal_strlit("");
            assert(""@ + dec(ids@[k] as nat) =~= dec(ids@[k] as nat));
        }
        assert(ids@.map_values(|id: usize| ""@ + dec(id as nat)) =~= ids@.map_values(
            |id: usize| dec_usize(id),
        ));
    }
    s
}

/// `[A,B],[C,D],...`, or `none`.
pub fn format_cpu_slots(cpu_slots: &Vec<Vec<usize>>) -> (r: String)
    ensures
        r@ == cpu_slots_text(slot_views(cpu_slots@)),
{
    let mut s = String::new();
    let n = cpu_slots.len();
    if n == 0 {
        s.append("none");
        return s;
    }
    let ghost parts = slot_views(cpu_slots@).map_values(|v: Seq<usize>| slot_text(v));
    let mut i: usize = 0;
    while i < n
        invariant
            i <= n == cpu_slots@.len() == parts.len(),
            parts == slot_views(cpu_slots@).map_values(|v: Seq<usize>| slot_text(v)),
            s@ == join(parts.take(i as int), ","@),
        decreases n - i,
    {
        proof {
            lemma_join_step(parts, ","@, i as int);
        }
        if i > 0 {
            s.append(",");
        }
        s.append("[");
        let inner = format_cpu_core_list(&cpu_slots[i]);
        s.append(inner.as_str());
        s.append("]");
        i = i + 1;
        proof {
            assert(s@ =~= join(parts.take(i as int), ","@));
        }
    }
    assert(parts.take(n as int) =~= parts);
    s
}

/// The thread limit, or `unlimited`.
pub fn format_cpu_threads(cpu_threads: Option<usize>) -> (r: String)
    ensures
        r@ == threads_text(cpu_threads),
{
    let mut s = String::new();
    match cpu_threads {
        Some(n) => {
            push_usize(&mut s, n);
            assert(s@ =~= dec(n as nat));
        },
        None => {
            s.append("unlimited");
            assert(s@ =~= "unlimited"@);
        },
    }
    s
}

/// The thread limit of a job: the one asked for, else the size of its core slot.
pub fn effective_cpu_threads(cpu_threads: Option<usize>, cpus_per_job: Option<usize>) -> (r: Option<
    usize,
>)
    ensures
        r == (if cpu_threads is Some {
            cpu_threads
        } else {
            cpus_per_job
        }),
{
    match cpu_threads {
        Some(t) => Some(t),
        None => cpus_per_job,
    }
}

pub open spec fn opt_vec_view(c: Option<&Vec<usize>>) -> Option<Seq<usize>> {
    match c {
        Some(v) => Some(v@),
        None => None,
    }
}

/// The cores of a slot, or `none`.
pub fn format_cpu_cores(cores: Option<&Vec<usize>>) -> (r: String)
    ensures
        r@ == cpu_cores_text(opt_vec_view(cores)),
{
    match cores {
        Some(v) => format_cpu_core_list(v),
        None => {
            let mut s = String::new();
            s.append("none");
            assert(s@ =~= "none"@);
            s
        },
    }
}

/// Appends the strings of `names` joined by `sep`.
pub fn push_joined(s: &mut String, names: &Vec<String>, sep: &str)
    ensures
        final(s)@ == old(s)@ + join(strings_view(names@), sep@),
{
    let ghost start = s@;
    let ghost parts = strings_view(names@);
    let n = names.len();
    let mut i: usize = 0;
    while i < n
        invariant
            i <= n == names@.len() == parts.len(),
            parts == strings_view(names@),
            s@ == start + join(parts.take(i as int), sep@),
        decreases n - i,
    {
        proof {
            lemma_join_step(parts, sep@, i as int);
        }
        if i > 0 {
            s.append(sep);
        }
        s.append(names[i].as_str());
        i = i + 1;
        proof {
            assert(s@ =~= start + join(parts.take(i as int), sep@));
        }
    }
    assert(parts.take(n as int) =~= parts);
}

} // verus!
