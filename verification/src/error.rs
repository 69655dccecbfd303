//! The errors of the selector library and their messages.
use vstd::prelude::*;
use crate::text::{push_signed_decimal, signed_decimal};

verus! {

/// An error of the selector library. Causes are carried as their messages.
#[derive(Debug)]
pub enum SelectorError {
    /// UI Automation could not be initialised.
    ComInit(String),
    /// No `IUIAutomation` instance could be created.
    AutomationCreate(String),
    /// `ElementFromPoint` failed at a point.
    ElementFromPoint { x: i32, y: i32, source: String },
    /// A property could not be read.
    GetProperty { property: String, source: String },
    /// Walking up to the parents failed.
    TreeWalk(String),
    /// The highlight window could not be created.
    Highlight(String),
    /// An XPath validation failed.
    Validation(String),
    /// A clipboard operation failed.
    Clipboard(String),
}

/// The message of an error.
pub open spec fn error_text(e: SelectorError) -> Seq<char> {
    match e {
        SelectorError::ComInit(s) => "UI Automation 初始化失败: "@ + s@,
        SelectorError::AutomationCreate(s) => "无法创建 IUIAutomation 实例: "@ + s@,
        SelectorError::ElementFromPoint { x, y, source } => "ElementFromPoint 失败 ("@ + signed_decimal(x as int)
            + ","@ + signed_decimal(y as int) + "): "@ + source@,
        SelectorError::GetProperty { property, source } => "获取属性失败 ["@ + property@ + "]: "@ + source@,
        SelectorError::TreeWalk(s) => "遍历父节点失败: "@ + s@,
        SelectorError::Highlight(s) => "高亮窗口创建失败: "@ + s@,
        SelectorError::Validation(s) => "XPath 校验失败: "@ + s@,
        SelectorError::Clipboard(s) => "剪贴板操作失败: "@ + s@,
    }
}

impl SelectorError {
    /// The message of the error (what `to_string` shows).
    pub fn message(&self) -> (m: String)
        ensures
            m@ == error_text(*self),
    {
        proof {
            reveal_strlit("UI Automation 初始化失败: ");
            reveal_strlit("无法创建 IUIAutomation 实例: ");
            reveal_strlit("ElementFromPoint 失败 (");
            reveal_strlit(",");
            reveal_strlit("): ");
            reveal_strlit("获取属性失败 [");
            reveal_strlit("]: ");
            reveal_strlit("遍历父节点失败: ");
            reveal_strlit("高亮窗口创建失败: ");
            reveal_strlit("XPath 校验失败: ");
            reveal_strlit("剪贴板操作失败: ");
        }
        let mut m = String::new();
        match self {
            SelectorError::ComInit(s) => {
                m.push_str("UI Automation 初始化失败: ");
                m.push_str(s.as_str());
            },
            SelectorError::AutomationCreate(s) => {
                m.push_str("无法创建 IUIAutomation 实例: ");
                m.push_str(s.as_str());
            },
            SelectorError::ElementFromPoint { x, y, source } => {
                m.push_str("ElementFromPoint 失败 (");
                push_signed_decimal(&mut m, *x as i64);
                m.push_str(",");
                push_signed_decimal(&mut m, *y as i64);
                m.push_str("): ");
                m.push_str(source.as_str());
            },
            SelectorError::GetProperty { property, source } => {
                m.push_str("获取属性失败 [");
                m.push_str(property.as_str());
                m.push_str("]: ");
                m.push_str(source.as_str());
            },
            SelectorError::TreeWalk(s) => {
                m.push_str("遍历父节点失败: ");
                m.push_str(s.as_str());
            },
            SelectorError::Highlight(s) => {
                m.push_str("高亮窗口创建失败: ");
                m.push_str(s.as_str());
            },
            SelectorError::Validation(s) => {
                m.push_str("XPath 校验失败: ");
                m.push_str(s.as_str());
            },
            SelectorError::Clipboard(s) => {
                m.push_str("剪贴板操作失败: ");
                m.push_str(s.as_str());
            },
        }
        assert(m@ =~= error_text(*self));
        m
    }
}

} // verus!
