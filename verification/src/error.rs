//! The error type of the synchronisation layer.

use vstd::prelude::*;
use vstd::string::StringExecFns;

verus! {

/// What went wrong during a synchronisation step. Messages are the texts
/// shown to the user; `Io` and `Database` carry the description of the
/// underlying operating-system or database error.
#[derive(Debug, Clone, PartialEq, Eq)]
pub enum SyncError {
    Cancelled,
    Conflict,
    Crypto(String),
    Format(String),
    Io(String),
    Database(String),
    Network(String),
}

/// The abstract value of a `SyncError`: its kind and message characters.
pub enum SyncErrorView {
    Cancelled,
    Conflict,
    Crypto(Seq<char>),
    Format(Seq<char>),
    Io(Seq<char>),
    Database(Seq<char>),
    Network(Seq<char>),
}

impl View for SyncError {
    type V = SyncErrorView;

    open spec fn view(&self) -> SyncErrorView {
        match self {
            SyncError::Cancelled => SyncErrorView::Cancelled,
            SyncError::Conflict => SyncErrorView::Conflict,
            SyncError::Crypto(m) => SyncErrorView::Crypto(m@),
            SyncError::Format(m) => SyncErrorView::Format(m@),
            SyncError::Io(m) => SyncErrorView::Io(m@),
            SyncError::Database(m) => SyncErrorView::Database(m@),
            SyncError::Network(m) => SyncErrorView::Network(m@),
        }
    }
}

/// A `Format` error with the given message.
pub fn format_error(msg: &str) -> (e: SyncError)
    ensures
        e@ == SyncErrorView::Format(msg@),
{
    SyncError::Format(msg.to_owned())
}

/// A `Crypto` error with the given message.
pub fn crypto_error(msg: &str) -> (e: SyncError)
    ensures
        e@ == SyncErrorView::Crypto(msg@),
{
    SyncError::Crypto(msg.to_owned())
}

/// A `Network` error with the given message.
pub fn network_error(msg: &str) -> (e: SyncError)
    ensures
        e@ == SyncErrorView::Network(msg@),
{
    SyncError::Network(msg.to_owned())
}

/// The text shown to the user for an error.
pub open spec fn message_text(e: SyncErrorView) -> Seq<char> {
    match e {
        SyncErrorView::Crypto(m) => m,
        SyncErrorView::Format(m) => m,
        SyncErrorView::Network(m) => m,
        SyncErrorView::Cancelled => "同步已取消"@,
        SyncErrorView::Conflict => "远端内容已变化，需要重新合并"@,
        SyncErrorView::Io(m) => "文件操作失败: "@ + m,
        SyncErrorView::Database(m) => "同步数据库失败: "@ + m,
    }
}

impl SyncError {
    /// The text shown to the user for this error.
    pub fn message(&self) -> (r: String)
        ensures
            r@ == message_text(self@),
    {
        match self {
            SyncError::Cancelled => "同步已取消".to_owned(),
            SyncError::Conflict => "远端内容已变化，需要重新合并".to_owned(),
            SyncError::Crypto(v) => v.clone(),
            SyncError::Format(v) => v.clone(),
            SyncError::Network(v) => v.clone(),
            SyncError::Io(v) => {
                let s = "文件操作失败: ".to_owned();
                s.concat(v.as_str())
            },
            SyncError::Database(v) => {
                let s = "同步数据库失败: ".to_owned();
                s.concat(v.as_str())
            },
        }
    }
}

} // verus!
