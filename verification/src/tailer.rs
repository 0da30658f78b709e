use vstd::prelude::*;
use crate::codec::{
    lines_of, complete_len, lemma_complete_len_le, lemma_complete_len_at, lemma_complete_len_none,
    lemma_lines_step,
};
use crate::logline::{parsed_url, parse_squid_log_line};

verus! {

/// The URLs that a run of access-log lines records, in file order; lines
/// that parse to nothing are skipped.
pub open spec fn urls_of_lines(lines: Seq<Seq<u8>>) -> Seq<Seq<u8>>
    decreases lines.len(),
{
    if lines.len() == 0 {
        Seq::empty()
    } else {
        match parsed_url(lines[0]) {
            Some(u) => seq![u] + urls_of_lines(lines.drop_first()),
            None => urls_of_lines(lines.drop_first()),
        }
    }
}

/// The URLs that one poll over the given newly appended bytes surfaces:
/// those of the complete (newline-terminated) prefix, in order.
pub open spec fn poll_urls(new_bytes: Seq<u8>) -> Seq<Seq<u8>> {
    urls_of_lines(lines_of(new_bytes.take(complete_len(new_bytes) as int)))
}

/// The byte-offset cursor of one monitored source file: how much of it has
/// already been consumed.
pub struct TailCursor {
    pub offset: u64,
}

impl TailCursor {
    /// A fresh cursor at the front of the file.
    pub fn new() -> (c: TailCursor)
        ensures
            c.offset == 0,
    {
        TailCursor { offset: 0 }
    }

    /// One poll of the source file. `current_size` is the file's size now;
    /// `new_bytes` are the bytes from the cursor to the end of the file,
    /// which the caller read when the file had grown.
    ///
    /// Law: the cursor never decreases except on detected truncation
    /// (`current_size` below the cursor), in which case it resets to the
    /// file's current size, consuming nothing — no replay of bytes before
    /// the reset point. Otherwise it advances exactly past the complete
    /// lines read, never past the end of the file, and surfaces their URLs
    /// in file order; a partial trailing line is left for a later poll.
    pub fn poll_step(&mut self, current_size: u64, new_bytes: &[u8]) -> (urls: Vec<Vec<u8>>)
        requires
            old(self).offset <= current_size ==> new_bytes@.len() == current_size - old(
                self,
            ).offset,
        ensures
            current_size < old(self).offset ==> final(self).offset == current_size && urls@.len()
                == 0,
            old(self).offset <= current_size ==> {
                &&& final(self).offset == old(self).offset + complete_len(new_bytes@)
                &&& old(self).offset <= final(self).offset <= current_size
                &&& urls@.len() == poll_urls(new_bytes@).len()
                &&& (forall|j: int|
                    0 <= j < urls@.len() ==> urls@[j]@ == poll_urls(new_bytes@)[j])
            },
    {
        if current_size < self.offset {
            self.offset = current_size;
            return Vec::new();
        }
        proof {
            lemma_complete_len_le(new_bytes@);
        }
        let mut end: usize = 0;
        let mut i: usize = 0;
        while i < new_bytes.len()
            invariant
                0 <= end <= i <= new_bytes@.len(),
                end == 0 ==> forall|k: int| 0 <= k < i ==> new_bytes@[k] != 10,
                end >= 1 ==> new_bytes@[end - 1] == 10,
                end >= 1 ==> forall|k: int| end <= k < i ==> new_bytes@[k] != 10,
            decreases new_bytes@.len() - i,
        {
            if new_bytes[i] == 10 {
                end = i + 1;
            }
            i += 1;
        }
        proof {
            if end == 0 {
                lemma_complete_len_none(new_bytes@);
            } else {
                lemma_complete_len_at(new_bytes@, end - 1);
            }
            assert(complete_len(new_bytes@) == end);
        }
        let ghost region = new_bytes@.take(end as int);
        let mut urls: Vec<Vec<u8>> = Vec::new();
        let ghost done: Seq<Seq<u8>> = Seq::empty();
        let mut pos: usize = 0;
        proof {
            assert(region.skip(0) =~= region);
        }
        while pos < end
            invariant
                0 <= pos <= end <= new_bytes@.len(),
                region == new_bytes@.take(end as int),
                end >= 1 ==> new_bytes@[end - 1] == 10,
                urls_of_lines(lines_of(region)) == done + urls_of_lines(
                    lines_of(region.skip(pos as int)),
                ),
                done.len() == urls@.len(),
                forall|j: int| 0 <= j < done.len() ==> urls@[j]@ == done[j],
            decreases end - pos,
        {
            let mut j: usize = pos;
            while j < end && new_bytes[j] != 10
                invariant
                    pos <= j <= end <= new_bytes@.len(),
                    end >= 1 ==> new_bytes@[end - 1] == 10,
                    forall|k: int| pos <= k < j ==> new_bytes@[k] != 10,
                decreases end - j,
            {
                j += 1;
            }
            proof {
                assert(new_bytes@[end - 1] == 10);
                assert(j < end);
                assert(forall|k: int| 0 <= k < region.len() ==> region[k] == new_bytes@[k]);
                lemma_lines_step(region, pos as int, j as int);
            }
            let line = &new_bytes[pos..j];
            proof {
                assert(line@ =~= region.subrange(pos as int, j as int));
            }
            let ghost lns = lines_of(region.skip(pos as int));
            proof {
                assert(lns[0] == line@);
                assert(lns.drop_first() =~= lines_of(region.skip(j as int + 1)));
            }
            match parse_squid_log_line(line) {
                Some(u) => {
                    let ghost before = done;
                    proof {
                        assert(urls_of_lines(lns) == seq![parsed_url(line@)->Some_0]
                            + urls_of_lines(lns.drop_first()));
                        done = done.push(u@);
                        assert(done + urls_of_lines(lns.drop_first()) =~= before + urls_of_lines(
                            lns,
                        ));
                    }
                    urls.push(u);
                },
                None => {
                    proof {
                        assert(urls_of_lines(lns) == urls_of_lines(lns.drop_first()));
                    }
                },
            }
            pos = j + 1;
        }
        proof {
            assert(region.skip(pos as int) =~= Seq::<u8>::empty());
            assert(urls_of_lines(lines_of(Seq::<u8>::empty())) =~= Seq::<Seq<u8>>::empty());
            assert(lines_of(Seq::<u8>::empty()) =~= Seq::<Seq<u8>>::empty());
            assert(urls_of_lines(lines_of(region)) =~= done);
        }
        self.offset = self.offset + end as u64;
        urls
    }
}

} // verus!
