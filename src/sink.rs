use vstd::prelude::*;

verus! {

/// The import lines that open every stub file.
pub open spec fn header_text() -> Seq<char> {
    "from datetime import datetime as DateTime\nfrom typing import *\nfrom enum import Enum"@
}

/// The blocks one after another.
pub open spec fn concat_blocks(blocks: Seq<Seq<char>>) -> Seq<char>
    decreases blocks.len(),
{
    if blocks.len() == 0 {
        Seq::empty()
    } else {
        concat_blocks(blocks.drop_last()) + blocks.last()
    }
}

/// The text of a stub file that has received `blocks`, in order: nothing
/// before the first block, then the header followed by every block.
pub open spec fn file_text(blocks: Seq<Seq<char>>) -> Seq<char> {
    if blocks.len() == 0 {
        Seq::empty()
    } else {
        header_text() + concat_blocks(blocks)
    }
}

/// The destination of one module's stub text. It hands out the text to append
/// to the file for each block, and puts the header before the first one.
pub struct StubSink {
    header_written: bool,
    blocks: Ghost<Seq<Seq<char>>>,
}

impl View for StubSink {
    type V = Seq<Seq<char>>;

    /// The blocks received so far, in order.
    closed spec fn view(&self) -> Seq<Seq<char>> {
        self.blocks@
    }
}

impl StubSink {
    /// The header has been handed out exactly when a block has.
    pub closed spec fn wf(&self) -> bool {
        self.header_written == (self@.len() > 0)
    }

    /// A sink for a module with nothing written yet.
    pub fn new() -> (r: StubSink)
        ensures
            r.wf(),
            r@ == Seq::<Seq<char>>::empty(),
    {
        StubSink { header_written: false, blocks: Ghost(Seq::empty()) }
    }

    /// Whether anything has been written yet.
    pub fn header_written(&self) -> (r: bool)
        requires
            self.wf(),
        ensures
            r == (self@.len() > 0),
    {
        self.header_written
    }

    /// Takes `content` and returns the text to append to the file for it: the
    /// header and the block the first time, the block alone after that.
    pub fn write_file(&mut self, content: String) -> (r: String)
        requires
            old(self).wf(),
        ensures
            final(self).wf(),
            final(self)@ == old(self)@.push(content@),
            file_text(old(self)@) + r@ == file_text(final(self)@),
            r@ == (if old(self)@.len() == 0 {
                header_text() + content@
            } else {
                content@
            }),
    {
        let ghost before = self.blocks@;
        let ghost after = before.push(content@);
        assert(after.drop_last() == before);
        self.blocks = Ghost(after);
        if self.header_written {
            assert(file_text(before) + content@ == file_text(after));
            content
        } else {
            self.header_written = true;
            assert(concat_blocks(before) == Seq::<char>::empty());
            assert(concat_blocks(after) == content@);
            let mut r = String::from_str(
                "from datetime import datetime as DateTime\nfrom typing import *\nfrom enum import Enum",
            );
            r.append(content.as_str());
            r
        }
    }
}

/// However many blocks a module receives, its file starts with the header, and
/// what follows the header is the blocks in the order received: the header is
/// written once, first.
pub proof fn lemma_header_once(blocks: Seq<Seq<char>>)
    requires
        blocks.len() > 0,
    ensures
        file_text(blocks).subrange(0, header_text().len() as int) == header_text(),
        file_text(blocks).subrange(header_text().len() as int, file_text(blocks).len() as int)
            == concat_blocks(blocks),
{
    let f = file_text(blocks);
    assert(f.subrange(0, header_text().len() as int) =~= header_text());
    assert(f.subrange(header_text().len() as int, f.len() as int) =~= concat_blocks(blocks));
}

} // verus!
