//! The SQLite telemetry log: rows of a time, a sensor's name and a value, pivoted here into one
//! series per sensor.
use vstd::prelude::*;

use crate::assoc::Assoc;
use crate::double::Double;
use crate::order::{is_text_order, text_order};
use crate::series::Sample;
use crate::text::{lex_lt, lex_lt_irreflexive, texts_of};

verus! {

broadcast use vstd::seq_lib::group_seq_properties;

/// A row of the `sensor_data` table.
pub struct Row {
    /// Microseconds UTC.
    pub t_utc: i64,
    pub sensor: String,
    pub value: Double,
}

/// The samples of one sensor.
pub struct SensorSeries {
    pub name: String,
    pub points: Vec<Sample>,
}

/// The samples of a sensor, in the order of the rows.
pub open spec fn sensor_points(rows: Seq<Row>, sensor: Seq<char>) -> Seq<Sample>
    decreases rows.len(),
{
    if rows.len() == 0 {
        Seq::empty()
    } else {
        let rest = sensor_points(rows.drop_last(), sensor);
        if rows.last().sensor@ == sensor {
            rest.push((rows.last().t_utc, rows.last().value))
        } else {
            rest
        }
    }
}

/// Whether a list holds each sensor of some rows once, by name, with its samples.
pub open spec fn is_pivot(out: Seq<SensorSeries>, rows: Seq<Row>) -> bool {
    &&& forall|i: int|
        0 <= i < out.len() ==> (#[trigger] out[i]).points@ == sensor_points(rows, out[i].name@)
            && out[i].points@.len() > 0
    &&& forall|i: int, j: int|
        0 <= i < j < out.len() ==> lex_lt((#[trigger] out[i]).name@, (#[trigger] out[j]).name@)
    &&& forall|k: int|
        0 <= k < rows.len() ==> exists|i: int|
            0 <= i < out.len() && (#[trigger] out[i]).name@ == (#[trigger] rows[k]).sensor@
}

/// Whether a table holds the samples of each sensor of some rows.
spec fn gathered(table: Assoc<String, Vec<Sample>>, rows: Seq<Row>) -> bool {
    &&& table.wf()
    &&& forall|sensor: Seq<char>| #[trigger]
        table.lookup(sensor) is Some <==> sensor_points(rows, sensor).len() > 0
    &&& forall|sensor: Seq<char>| (#[trigger] table.lookup(sensor)) is Some ==> table.lookup(
        sensor,
    ).unwrap()@ == sensor_points(rows, sensor)
}

fn gather(table: &mut Assoc<String, Vec<Sample>>, row: &Row, Ghost(rows): Ghost<Seq<Row>>)
    requires
        gathered(*old(table), rows),
    ensures
        gathered(*final(table), rows.push(*row)),
{
    let ghost before = *table;
    let ghost next = rows.push(*row);
    assert(next.drop_last() =~= rows);
    let i = table.slot(row.sensor.clone(), Vec::new());
    let ghost mid = *table;
    let points = table.value_mut(i);
    points.push((row.t_utc, row.value));
    proof {
        mid.lemma_at(i as int);
        Assoc::lemma_update(mid, *table, i as int);
        assert forall|sensor: Seq<char>| (#[trigger] table.lookup(sensor)) is Some
            <==> sensor_points(next, sensor).len() > 0 by {
            assert(before.lookup(sensor) is Some <==> sensor_points(rows, sensor).len() > 0);
            if sensor != row.sensor@ {
                assert(table.lookup(sensor) == mid.lookup(sensor));
                assert(mid.lookup(sensor) == before.lookup(sensor));
            }
        }
        assert forall|sensor: Seq<char>| (
        #[trigger] table.lookup(sensor)) is Some implies table.lookup(sensor).unwrap()@
            == sensor_points(next, sensor) by {
            assert(before.lookup(sensor) is Some <==> sensor_points(rows, sensor).len() > 0);
            if sensor != row.sensor@ {
                assert(table.lookup(sensor) == mid.lookup(sensor));
                assert(mid.lookup(sensor) == before.lookup(sensor));
            } else if before.lookup(sensor) is None {
                assert(sensor_points(rows, sensor) =~= Seq::<Sample>::empty());
            }
        }
    }
}

/// One series per sensor, in the order of their names. `None` where there is no row.
pub fn pivot(rows: &Vec<Row>) -> (r: Option<Vec<SensorSeries>>)
    ensures
        match r {
            Some(out) => rows@.len() > 0 && is_pivot(out@, rows@),
            None => rows@.len() == 0,
        },
{
    if rows.len() == 0 {
        return None;
    }
    let mut table: Assoc<String, Vec<Sample>> = Assoc::new();
    let mut k: usize = 0;
    assert(rows@.take(0) =~= Seq::<Row>::empty());
    assert forall|sensor: Seq<char>| !(#[trigger] table.lookup(sensor) is Some) by {
        assert(!table.has(sensor));
    }
    while k < rows.len()
        invariant
            k <= rows@.len(),
            gathered(table, rows@.take(k as int)),
        decreases rows@.len() - k,
    {
        gather(&mut table, &rows[k], Ghost(rows@.take(k as int)));
        assert(rows@.take(k + 1) =~= rows@.take(k as int).push(rows@[k as int]));
        k += 1;
    }
    assert(rows@.take(rows@.len() as int) =~= rows@);
    let order = text_order(&table.names);
    let mut out: Vec<SensorSeries> = Vec::new();
    let mut j: usize = 0;
    while j < order.len()
        invariant
            j <= order@.len() == table.names@.len(),
            gathered(table, rows@),
            is_text_order(texts_of(table.names@), order@),
            out@.len() == j,
            forall|i: int|
                0 <= i < j ==> {
                    &&& (#[trigger] out@[i]).name@ == table.keys()[order@[i] as int]
                    &&& out@[i].points@ == sensor_points(rows@, out@[i].name@)
                    &&& out@[i].points@.len() > 0
                },
        decreases order@.len() - j,
    {
        let p = order[j];
        proof {
            table.lemma_at(p as int);
            assert(table.lookup(table.keys()[p as int]) is Some);
        }
        let source = &table.items[p];
        let mut points: Vec<Sample> = Vec::new();
        let mut q: usize = 0;
        while q < source.len()
            invariant
                q <= source@.len(),
                points@ == source@.take(q as int),
            decreases source@.len() - q,
        {
            points.push(source[q]);
            q += 1;
        }
        assert(source@.take(source@.len() as int) =~= source@);
        assert(table.keys()[p as int] == table.names@[p as int]@);
        out.push(SensorSeries { name: table.names[p].clone(), points });
        j += 1;
    }
    proof {
        let texts = texts_of(table.names@);
        assert(texts =~= table.keys());
        assert forall|a: int, b: int| 0 <= a < b < out@.len() implies lex_lt(
            (#[trigger] out@[a]).name@,
            (#[trigger] out@[b]).name@,
        ) by {
            let x = order@[a] as int;
            let y = order@[b] as int;
            assert(crate::order::text_precedes(texts, x, y));
            lex_lt_irreflexive(texts[x]);
            assert(x != y);
            assert(table.keys()[x] != table.keys()[y]);
        }
        assert forall|r: int| 0 <= r < rows@.len() implies exists|i: int|
            0 <= i < out@.len() && (#[trigger] out@[i]).name@ == (#[trigger] rows@[r]).sensor@ by {
            let sensor = rows@[r].sensor@;
            lemma_sensor_has_points(rows@, r);
            assert(table.lookup(sensor) is Some);
            let p = table.keys().index_of(sensor);
            assert(table.keys()[p] == sensor);
            assert(table.names.len() == table.names@.len());
            assert(order@.contains(p as usize));
            let i = order@.index_of(p as usize);
            assert(order@[i] == p);
            assert(out@[i].name@ == sensor);
        }
    }
    Some(out)
}

proof fn lemma_sensor_has_points(rows: Seq<Row>, r: int)
    requires
        0 <= r < rows.len(),
    ensures
        sensor_points(rows, rows[r].sensor@).len() > 0,
    decreases rows.len(),
{
    if r < rows.len() - 1 {
        lemma_sensor_has_points(rows.drop_last(), r);
    }
}

} // verus!
