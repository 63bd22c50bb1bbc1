//! The structured form of a `whkdrc` configuration document: the shell
//! choice, the process-scoped bindings, and the direct bindings.

use vstd::prelude::*;

verus! {

/// Which interactive shell the dispatcher drives.
#[derive(Debug, Clone, Copy, PartialEq, Eq, Structural)]
pub enum Shell {
    Pwsh,
    Powershell,
    Cmd,
}

/// One parsed binding: an optional mode scope, the key tokens (the last one
/// is the trigger, the rest are modifiers), an optional command, an optional
/// mode change (`Some(None)` = return to the default mode, `Some(Some(m))` =
/// switch to mode `m`), and an optional process filter.
#[derive(Debug, Clone, PartialEq, Eq)]
pub struct HotkeyBinding {
    pub mode: Option<String>,
    pub keys: Vec<String>,
    pub command: Option<String>,
    pub internal_action: Option<Option<String>>,
    pub process_name: Option<String>,
}

/// The mathematical value of a `HotkeyBinding`: every string replaced by its
/// character sequence.
#[verifier::ext_equal]
pub ghost struct BindingModel {
    pub mode: Option<Seq<char>>,
    pub keys: Seq<Seq<char>>,
    pub command: Option<Seq<char>>,
    pub internal_action: Option<Option<Seq<char>>>,
    pub process_name: Option<Seq<char>>,
}

impl View for HotkeyBinding {
    type V = BindingModel;

    open spec fn view(&self) -> BindingModel {
        BindingModel {
            mode: self.mode.deep_view(),
            keys: self.keys.deep_view(),
            command: self.command.deep_view(),
            internal_action: self.internal_action.deep_view(),
            process_name: self.process_name.deep_view(),
        }
    }
}

impl DeepView for HotkeyBinding {
    type V = BindingModel;

    open spec fn deep_view(&self) -> BindingModel {
        self@
    }
}

/// A whole parsed configuration document.
#[derive(Debug, Clone, PartialEq, Eq)]
pub struct Whkdrc {
    pub shell: Shell,
    pub app_bindings: Vec<(Vec<String>, Vec<HotkeyBinding>)>,
    pub bindings: Vec<HotkeyBinding>,
}

/// The mathematical value of one process-scoped block: the shared key
/// tokens and the per-process bindings they expand to.
#[verifier::ext_equal]
pub ghost struct AppBlockModel {
    pub keys: Seq<Seq<char>>,
    pub bindings: Seq<BindingModel>,
}

/// The mathematical value of a `Whkdrc`.
#[verifier::ext_equal]
pub ghost struct WhkdrcModel {
    pub shell: Shell,
    pub app_bindings: Seq<AppBlockModel>,
    pub bindings: Seq<BindingModel>,
}

/// The mathematical value of one `(keys, bindings)` pair of `app_bindings`.
pub open spec fn block_model(t: (Vec<String>, Vec<HotkeyBinding>)) -> AppBlockModel {
    AppBlockModel { keys: t.0.deep_view(), bindings: t.1.deep_view() }
}

impl View for Whkdrc {
    type V = WhkdrcModel;

    open spec fn view(&self) -> WhkdrcModel {
        WhkdrcModel {
            shell: self.shell,
            app_bindings: Seq::new(
                self.app_bindings.len() as nat,
                |i: int| block_model(self.app_bindings[i]),
            ),
            bindings: self.bindings.deep_view(),
        }
    }
}

} // verus!
