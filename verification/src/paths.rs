use vstd::prelude::*;

verus! {

/// The bytes of `log.ndjson`, the event store's file name.
pub open spec fn log_file_name() -> Seq<u8> {
    seq![108u8, 111u8, 103u8, 46u8, 110u8, 100u8, 106u8, 115u8, 111u8, 110u8]
}

/// The bytes of `rolling_summary.json`, the summary state's file name.
pub open spec fn summary_file_name() -> Seq<u8> {
    seq![
        114u8,
        111u8,
        108u8,
        108u8,
        105u8,
        110u8,
        103u8,
        95u8,
        115u8,
        117u8,
        109u8,
        109u8,
        97u8,
        114u8,
        121u8,
        46u8,
        106u8,
        115u8,
        111u8,
        110u8,
    ]
}

fn join_name(data_dir: &Vec<u8>, name: &Vec<u8>) -> (p: Vec<u8>)
    ensures
        p@ == data_dir@ + seq![47u8] + name@,
{
    let mut p: Vec<u8> = Vec::new();
    p.extend_from_slice(data_dir.as_slice());
    p.push(47);
    p.extend_from_slice(name.as_slice());
    proof {
        assert(p@ =~= data_dir@ + seq![47u8] + name@);
    }
    p
}

/// The event store's path under the data directory, joined with `/`.
pub fn log_path(data_dir: &Vec<u8>) -> (p: Vec<u8>)
    ensures
        p@ == data_dir@ + seq![47u8] + log_file_name(),
{
    let mut name: Vec<u8> = Vec::new();
    name.push(108);
    name.push(111);
    name.push(103);
    name.push(46);
    name.push(110);
    name.push(100);
    name.push(106);
    name.push(115);
    name.push(111);
    name.push(110);
    proof {
        assert(name@ =~= log_file_name());
    }
    join_name(data_dir, &name)
}

/// The summary state's path under the data directory, joined with `/`.
pub fn summary_path(data_dir: &Vec<u8>) -> (p: Vec<u8>)
    ensures
        p@ == data_dir@ + seq![47u8] + summary_file_name(),
{
    let mut name: Vec<u8> = Vec::new();
    name.push(114);
    name.push(111);
    name.push(108);
    name.push(108);
    name.push(105);
    name.push(110);
    name.push(103);
    name.push(95);
    name.push(115);
    name.push(117);
    name.push(109);
    name.push(109);
    name.push(97);
    name.push(114);
    name.push(121);
    name.push(46);
    name.push(106);
    name.push(115);
    name.push(111);
    name.push(110);
    proof {
        assert(name@ =~= summary_file_name());
    }
    join_name(data_dir, &name)
}

} // verus!
