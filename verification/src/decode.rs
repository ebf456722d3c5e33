//! The reader of delimited text: bytes to records of fields.
//!
//! The text is read byte by byte by a machine of five modes. A comma ends a
//! field and a line feed ends a record; inside double quotes both are bytes
//! of the field, and two double quotes stand for one. A carriage return
//! outside quotes is passed over.

use vstd::prelude::*;
use crate::value::texts_view;

verus! {

/// Where the reader stands.
#[derive(Clone, Copy, Debug, PartialEq, Eq, Structural)]
pub enum Mode {
    /// At the start of a field.
    Start,
    /// In a field without quotes.
    Unquoted,
    /// In a field in quotes.
    Quoted,
    /// After a double quote in a quoted field: the field's end, or the first
    /// of two double quotes.
    Closed,
    /// After a byte that cannot stand where it stands.
    Failed,
}

/// What the reader has read: the field that it is in, the fields of the
/// record that it is in, and the records that have ended.
pub struct Scan {
    pub mode: Mode,
    pub field: Seq<u8>,
    pub record: Seq<Seq<u8>>,
    pub records: Seq<Seq<Seq<u8>>>,
}

/// The reader before the first byte.
pub open spec fn scan_start() -> Scan {
    Scan { mode: Mode::Start, field: Seq::empty(), record: Seq::empty(), records: Seq::empty() }
}

/// The reader after the end of a field.
pub open spec fn end_field(s: Scan) -> Scan {
    Scan {
        mode: Mode::Start,
        field: Seq::empty(),
        record: s.record.push(s.field),
        records: s.records,
    }
}

/// The reader after the end of a record.
pub open spec fn end_record(s: Scan) -> Scan {
    Scan {
        mode: Mode::Start,
        field: Seq::empty(),
        record: Seq::empty(),
        records: s.records.push(s.record.push(s.field)),
    }
}

/// The reader in another mode.
pub open spec fn in_mode(s: Scan, mode: Mode) -> Scan {
    Scan { mode, field: s.field, record: s.record, records: s.records }
}

/// The reader with one more byte in its field, in the given mode.
pub open spec fn with_byte(s: Scan, mode: Mode, b: u8) -> Scan {
    Scan { mode, field: s.field.push(b), record: s.record, records: s.records }
}

/// The reader after one more byte.
pub open spec fn step(s: Scan, b: u8) -> Scan {
    match s.mode {
        Mode::Failed => s,
        Mode::Quoted => if b == 34 {
            in_mode(s, Mode::Closed)
        } else {
            with_byte(s, Mode::Quoted, b)
        },
        Mode::Start => if b == 44 {
            end_field(s)
        } else if b == 10 {
            end_record(s)
        } else if b == 13 {
            s
        } else if b == 34 {
            in_mode(s, Mode::Quoted)
        } else {
            with_byte(s, Mode::Unquoted, b)
        },
        Mode::Unquoted => if b == 44 {
            end_field(s)
        } else if b == 10 {
            end_record(s)
        } else if b == 13 {
            s
        } else if b == 34 {
            in_mode(s, Mode::Failed)
        } else {
            with_byte(s, Mode::Unquoted, b)
        },
        Mode::Closed => if b == 44 {
            end_field(s)
        } else if b == 10 {
            end_record(s)
        } else if b == 13 {
            s
        } else if b == 34 {
            with_byte(s, Mode::Quoted, b)
        } else {
            in_mode(s, Mode::Failed)
        },
    }
}

/// The reader after the bytes, begun as `from`.
pub open spec fn scan(bytes: Seq<u8>, from: Scan) -> Scan
    decreases bytes.len(),
{
    if bytes.len() == 0 {
        from
    } else {
        step(scan(bytes.drop_last(), from), bytes.last())
    }
}

/// What the reader has at the end of the text: the records, the last of
/// which need not end with a line feed; or, where a byte could not stand
/// where it stood or a quoted field has no end, the index of the record in
/// which that is.
pub open spec fn finish(s: Scan) -> Result<Seq<Seq<Seq<u8>>>, nat> {
    match s.mode {
        Mode::Failed => Err(s.records.len()),
        Mode::Quoted => Err(s.records.len()),
        Mode::Start => if s.record.len() == 0 {
            Ok(s.records)
        } else {
            Ok(s.records.push(s.record.push(s.field)))
        },
        _ => Ok(s.records.push(s.record.push(s.field))),
    }
}

/// The records of a delimited text, or the index of the record that is
/// malformed.
pub open spec fn decode_records(bytes: Seq<u8>) -> Result<Seq<Seq<Seq<u8>>>, nat> {
    finish(scan(bytes, scan_start()))
}

/// Records, as contracts speak of them.
pub open spec fn records_view(records: Seq<Vec<Vec<u8>>>) -> Seq<Seq<Seq<u8>>> {
    Seq::new(records.len(), |i: int| texts_view(records[i]@))
}

/// The records of a delimited text, or the index of the record that is
/// malformed.
pub fn decode(bytes: &Vec<u8>) -> (out: Result<Vec<Vec<Vec<u8>>>, usize>)
    ensures
        match out {
            Ok(records) => decode_records(bytes@) == Ok::<Seq<Seq<Seq<u8>>>, nat>(
                records_view(records@),
            ),
            Err(at) => decode_records(bytes@) == Err::<Seq<Seq<Seq<u8>>>, nat>(at as nat),
        },
{
    let mut mode: Mode = Mode::Start;
    let mut field: Vec<u8> = Vec::new();
    let mut record: Vec<Vec<u8>> = Vec::new();
    let mut records: Vec<Vec<Vec<u8>>> = Vec::new();
    let mut i: usize = 0;
    proof {
        assert(bytes@.take(0) =~= Seq::<u8>::empty());
        assert(texts_view(record@) =~= Seq::<Seq<u8>>::empty());
        assert(records_view(records@) =~= Seq::<Seq<Seq<u8>>>::empty());
    }
    while i < bytes.len()
        invariant
            i <= bytes.len(),
            scan(bytes@.take(i as int), scan_start()) == (Scan {
                mode,
                field: field@,
                record: texts_view(record@),
                records: records_view(records@),
            }),
        decreases bytes.len() - i,
    {
        let b: u8 = bytes[i];
        let ghost before = Scan {
            mode,
            field: field@,
            record: texts_view(record@),
            records: records_view(records@),
        };
        proof {
            let next = bytes@.take(i + 1);
            assert(next.drop_last() =~= bytes@.take(i as int));
            assert(next.last() == b);
            assert(scan(next, scan_start()) == step(before, b));
        }
        let quoted: bool = mode == Mode::Quoted;
        let failed: bool = mode == Mode::Failed;
        if failed {
        } else if quoted {
            if b == 34 {
                mode = Mode::Closed;
            } else {
                field.push(b);
            }
        } else if b == 44 {
            let ghost fields = record@;
            record.push(field);
            field = Vec::new();
            mode = Mode::Start;
            proof {
                assert(texts_view(record@) =~= before.record.push(before.field));
            }
        } else if b == 10 {
            let ghost ended = records@;
            record.push(field);
            records.push(record);
            field = Vec::new();
            record = Vec::new();
            mode = Mode::Start;
            proof {
                assert(texts_view(records@.last()@) =~= before.record.push(before.field));
                assert(records_view(records@) =~= before.records.push(
                    before.record.push(before.field),
                ));
                assert(texts_view(record@) =~= Seq::<Seq<u8>>::empty());
            }
        } else if b == 13 {
        } else if b == 34 {
            match mode {
                Mode::Start => {
                    mode = Mode::Quoted;
                },
                Mode::Closed => {
                    field.push(b);
                    mode = Mode::Quoted;
                },
                _ => {
                    mode = Mode::Failed;
                },
            }
        } else {
            match mode {
                Mode::Closed => {
                    mode = Mode::Failed;
                },
                _ => {
                    field.push(b);
                    mode = Mode::Unquoted;
                },
            }
        }
        i += 1;
    }
    assert(bytes@.take(bytes.len() as int) =~= bytes@);
    let ghost last = Scan {
        mode,
        field: field@,
        record: texts_view(record@),
        records: records_view(records@),
    };
    match mode {
        Mode::Failed => Err(records.len()),
        Mode::Quoted => Err(records.len()),
        _ => {
            let pending: bool = match mode {
                Mode::Start => record.len() > 0,
                _ => true,
            };
            if pending {
                record.push(field);
                records.push(record);
                proof {
                    assert(texts_view(records@.last()@) =~= last.record.push(last.field));
                    assert(records_view(records@) =~= last.records.push(
                        last.record.push(last.field),
                    ));
                }
            }
            Ok(records)
        },
    }
}

} // verus!
