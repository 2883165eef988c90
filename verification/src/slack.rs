//! Messages for Slack: the blocks that a message is made of, and where to
//! send it. Nothing here sends a message.

use vstd::prelude::*;

verus! {

/// One block of a message.
#[derive(Debug, PartialEq, Eq)]
pub enum Block {
    /// A block of text.
    Text(String),
    /// A line that parts what is above it from what is below.
    Divider,
}

/// What a `Block` says.
pub enum BlockView {
    Text(Seq<char>),
    Divider,
}

impl View for Block {
    type V = BlockView;

    open spec fn view(&self) -> BlockView {
        match self {
            Block::Text(text) => BlockView::Text(text@),
            Block::Divider => BlockView::Divider,
        }
    }
}

/// The views of `blocks`, in order.
pub open spec fn block_views(blocks: Seq<Block>) -> Seq<BlockView> {
    Seq::new(blocks.len(), |i: int| blocks[i]@)
}

/// A message and the webhook to send it to.
#[derive(Debug, PartialEq, Eq)]
pub struct Notification {
    pub url: String,
    pub blocks: Vec<Block>,
}

/// What a `Notification` says.
pub struct NotificationView {
    pub url: Seq<char>,
    pub blocks: Seq<BlockView>,
}

impl View for Notification {
    type V = NotificationView;

    open spec fn view(&self) -> NotificationView {
        NotificationView { url: self.url@, blocks: block_views(self.blocks@) }
    }
}

} // verus!
