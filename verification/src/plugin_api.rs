use vstd::prelude::*;

use crate::app::App;
use crate::text::{decimal, decimal_string, joined};

verus! {

/// std's `std::io::Error`, declared so that the source reads of plugins can return it. It is
/// opaque here: the library only carries it through.
#[verifier::external_type_specification]
#[verifier::external_body]
pub struct ExIoError(std::io::Error);

/// The type of a parameter that a plugin method accepts.
pub enum ValueTy {
    U64,
    String,
}

/// The name under which a parameter type is shown to the user.
pub open spec fn ty_label(ty: ValueTy) -> Seq<char> {
    match ty {
        ValueTy::U64 => "u64"@,
        ValueTy::String => "string"@,
    }
}

impl ValueTy {
    /// The name under which the type is shown to the user.
    pub fn label(&self) -> (r: &'static str)
        ensures
            r@ == ty_label(*self),
    {
        match self {
            ValueTy::U64 => "u64",
            ValueTy::String => "string",
        }
    }
}

/// A value handed to or returned by a plugin method.
///
/// A floating-point value is carried as its IEEE 754 bit pattern
/// (as produced by `f64::to_bits`).
pub enum Value {
    U64(u64),
    F64(u64),
    String(String),
}

/// What a plugin method call returns: an optional value, or an error message.
pub type MethodResult = Result<Option<Value>, String>;

/// A parameter of a plugin method: its name and type.
pub struct MethodParam {
    pub name: &'static str,
    pub ty: ValueTy,
}

/// A method that a plugin offers to the host.
pub struct PluginMethod {
    pub method_name: &'static str,
    pub human_name: Option<&'static str>,
    pub desc: &'static str,
    pub params: &'static [MethodParam],
}

impl PluginMethod {
    /// The name on the method's menu button: its human name if it has one, else its name.
    pub fn display_name(&self) -> (r: &'static str)
        ensures
            r == match self.human_name {
                Some(h) => h,
                None => self.method_name,
            },
    {
        match self.human_name {
            Some(h) => h,
            None => self.method_name,
        }
    }
}

impl MethodParam {
    /// How the parameter is listed beside its method: `name: type,`.
    pub fn signature(&self) -> (r: String)
        ensures
            r@ == self.name@ + ": "@ + ty_label(self.ty) + ","@,
    {
        let mut s = joined(self.name, ": ");
        s.append(self.ty.label());
        s.append(",");
        s
    }
}

/// The message that reports what a method call returned: `method: value`. A floating-point
/// value is written by the host (`None`); an integer is written in decimal.
pub fn method_call_message(method_name: &str, val: &Value) -> (r: Option<String>)
    ensures
        match val {
            Value::U64(n) => r matches Some(m) && m@ == method_name@ + ": "@ + decimal(*n as nat),
            Value::String(t) => r matches Some(m) && m@ == method_name@ + ": "@ + t@,
            Value::F64(_) => r is None,
        },
{
    match val {
        Value::U64(n) => {
            let mut m = joined(method_name, ": ");
            let digits = decimal_string(*n);
            m.append(digits.as_str());
            Some(m)
        },
        Value::String(t) => {
            let mut m = joined(method_name, ": ");
            m.append(t.as_str());
            Some(m)
        },
        Value::F64(_) => None,
    }
}

/// How a plugin-provided source may be reloaded.
pub enum AutoReloadType {
    Both,
    /// It is not always possible to read everything, as for example, the plugin could be
    /// using a slow network protocol like TCP, or a remote gdb session.
    RegionOnly,
    /// A plugin that acts as a network proxy and dumps a buffer that was filled from an
    /// internal continuous stream.
    OneShot,
}

/// How a plugin describes itself as a data source.
pub struct PluginSourceProviderParams {
    pub human_name: &'static str,
    pub is_stream: bool,
    pub is_writable: bool,
    pub is_savable: bool,
    pub auto_reload_type: AutoReloadType,
}

/// A data source implemented by a plugin.
pub trait PluginSourceProvider {
    fn read(&mut self, buf: &mut [u8]) -> std::io::Result<usize>;

    /// A plugin that does not support writing should panic here: the host's
    /// `is_writable` check keeps this from being called.
    fn write(&mut self, buf: &mut [u8]) -> std::io::Result<usize>;
}

/// Whether `start..=end` names a range of a buffer of `len` bytes, as slice indexing with
/// an inclusive range accepts it (`start == end + 1` names the empty range at `start`).
pub open spec fn inclusive_range_ok(start: usize, end: usize, len: nat) -> bool {
    end < len && start <= end + 1
}

/// `data` with the bytes `start..=end` replaced by `part`.
pub open spec fn splice(data: Seq<u8>, start: int, end: int, part: Seq<u8>) -> Seq<u8> {
    data.subrange(0, start) + part + data.subrange(end + 1, data.len() as int)
}

/// What a plugin may ask of the host editor: the selection (an inclusive range of byte
/// offsets), the bytes of a range of the document, and a line in the debug log. The editor
/// state `App` implements it.
pub trait HexeratorHandle {
    /// The bytes of the open document.
    spec fn handle_data(&self) -> Seq<u8>;

    /// The current selection, as an inclusive range of byte offsets, if there is one.
    spec fn handle_selection(&self) -> Option<(usize, usize)>;

    /// The lines written to the debug log, oldest first.
    spec fn handle_log(&self) -> Seq<Seq<char>>;

    /// The editor state apart from the bytes of the document and the debug log.
    spec fn handle_rest(&self) -> App;

    fn selection_range(&self) -> (r: Option<(usize, usize)>)
        ensures
            r == self.handle_selection(),
    ;

    /// The bytes `start..=end` of the document, if that range lies in it.
    fn get_data(&self, start: usize, end: usize) -> (r: Option<&[u8]>)
        ensures
            r is Some <==> inclusive_range_ok(start, end, self.handle_data().len()),
            r matches Some(d) ==> d@ == self.handle_data().subrange(start as int, end + 1),
    ;

    /// The bytes `start..=end` of the document, to be changed in place, if that range lies
    /// in it: what is written through the result is what the document holds there.
    fn get_data_mut(&mut self, start: usize, end: usize) -> (r: Option<&mut [u8]>)
        ensures
            r is Some <==> inclusive_range_ok(start, end, old(self).handle_data().len()),
            final(self).handle_selection() == old(self).handle_selection(),
            final(self).handle_rest() == old(self).handle_rest(),
            final(self).handle_log() == old(self).handle_log(),
            match r {
                Some(d) => {
                    &&& d@ == old(self).handle_data().subrange(start as int, end + 1)
                    &&& final(self).handle_data() == splice(
                        old(self).handle_data(),
                        start as int,
                        end as int,
                        final(d)@,
                    )
                },
                None => final(self).handle_data() == old(self).handle_data(),
            },
    ;

    /// Writes `msg` as a line of the debug log.
    fn debug_log(&mut self, msg: &str)
        ensures
            final(self).handle_log() == old(self).handle_log().push(msg@),
            final(self).handle_data() == old(self).handle_data(),
            final(self).handle_selection() == old(self).handle_selection(),
            final(self).handle_rest() == old(self).handle_rest(),
    ;
}

/// What the user did to a loaded plugin in the plugins menu during one frame.
pub enum PluginMenuAction {
    Keep,
    Unload,
    Reload,
}

/// The indices, in order, of the plugins that stay loaded after the menu: those that were
/// neither unloaded nor reloaded.
pub open spec fn kept_plugins(actions: Seq<PluginMenuAction>) -> Seq<usize>
    decreases actions.len(),
{
    if actions.len() == 0 {
        Seq::empty()
    } else {
        let kept = kept_plugins(actions.drop_last());
        if actions.last() is Keep {
            kept.push((actions.len() - 1) as usize)
        } else {
            kept
        }
    }
}

/// The plugin to load again after the menu: the last one whose reload was asked for.
pub open spec fn reloaded_plugin(actions: Seq<PluginMenuAction>) -> Option<usize>
    decreases actions.len(),
{
    if actions.len() == 0 {
        None
    } else if actions.last() is Reload {
        Some((actions.len() - 1) as usize)
    } else {
        reloaded_plugin(actions.drop_last())
    }
}

/// Which loaded plugins the plugins menu keeps, and which one it loads again (its new
/// container then goes after the kept ones), given what was done to each plugin.
pub fn plugins_after_menu(actions: &Vec<PluginMenuAction>) -> (r: (Vec<usize>, Option<usize>))
    ensures
        r.0@ == kept_plugins(actions@),
        r.1 == reloaded_plugin(actions@),
{
    let mut kept: Vec<usize> = Vec::new();
    let mut reload: Option<usize> = None;
    let mut k: usize = 0;
    while k < actions.len()
        invariant
            k <= actions@.len(),
            kept@ == kept_plugins(actions@.take(k as int)),
            reload == reloaded_plugin(actions@.take(k as int)),
        decreases actions@.len() - k,
    {
        assert(actions@.take(k + 1).drop_last() =~= actions@.take(k as int));
        match actions[k] {
            PluginMenuAction::Keep => kept.push(k),
            PluginMenuAction::Unload => {},
            PluginMenuAction::Reload => reload = Some(k),
        }
        k += 1;
    }
    assert(actions@.take(actions@.len() as int) =~= actions@);
    (kept, reload)
}

/// The plugins menu keeps exactly the plugins left untouched, in their order: an index is
/// kept if and only if its action is `Keep`, and the kept indices increase.
pub proof fn lemma_kept_plugins_are_the_untouched(actions: Seq<PluginMenuAction>)
    requires
        actions.len() <= usize::MAX,
    ensures
        forall|k: usize|
            k < actions.len() ==> (kept_plugins(actions).contains(k) <==> actions[k as int] is Keep),
        forall|j: int| 0 <= j < kept_plugins(actions).len() ==> kept_plugins(actions)[j] < actions.len(),
        forall|j1: int, j2: int|
            0 <= j1 < j2 < kept_plugins(actions).len() ==> kept_plugins(actions)[j1] < kept_plugins(
                actions,
            )[j2],
    decreases actions.len(),
{
    if actions.len() > 0 {
        let prev = actions.drop_last();
        lemma_kept_plugins_are_the_untouched(prev);
        let kp = kept_plugins(prev);
        let kept = kept_plugins(actions);
        let n = (actions.len() - 1) as usize;
        assert(n == prev.len());
        if actions.last() is Keep {
            assert(kept == kp.push(n));
        } else {
            assert(kept == kp);
        }
        assert forall|k: usize| k < actions.len() implies (kept.contains(k) <==> actions[k as int] is Keep) by {
            if k < n {
                assert(prev[k as int] == actions[k as int]);
                if kept.contains(k) {
                    let j = choose|j: int| 0 <= j < kept.len() && kept[j] == k;
                    if j < kp.len() {
                        assert(kp[j] == k);
                    }
                    assert(kp.contains(k));
                }
                if kp.contains(k) {
                    let j = choose|j: int| 0 <= j < kp.len() && kp[j] == k;
                    assert(kept[j] == k);
                }
            } else {
                if kept.contains(k) {
                    let j = choose|j: int| 0 <= j < kept.len() && kept[j] == k;
                    if j < kp.len() {
                        assert(kp[j] < prev.len());
                    }
                }
                if actions[k as int] is Keep {
                    assert(kept[kp.len() as int] == k);
                }
            }
        }
    }
}

/// The plugins menu reloads the last plugin whose reload was asked for, and reloads one
/// whenever any reload was asked for.
pub proof fn lemma_reloaded_plugin_is_last_reload(actions: Seq<PluginMenuAction>)
    requires
        actions.len() <= usize::MAX,
    ensures
        reloaded_plugin(actions) is None <==> forall|k: int|
            0 <= k < actions.len() ==> !(#[trigger] actions[k] is Reload),
        reloaded_plugin(actions) matches Some(k) ==> {
            &&& k < actions.len()
            &&& actions[k as int] is Reload
            &&& forall|j: int| k < j < actions.len() ==> !(#[trigger] actions[j] is Reload)
        },
    decreases actions.len(),
{
    if actions.len() > 0 {
        let prev = actions.drop_last();
        lemma_reloaded_plugin_is_last_reload(prev);
        assert forall|k: int| 0 <= k < prev.len() implies prev[k] == actions[k] by {}
        if actions.last() is Reload {
            assert(actions[actions.len() - 1] is Reload);
        } else {
            assert(!(actions[actions.len() - 1] is Reload));
            if reloaded_plugin(prev) is None {
                assert forall|k: int| 0 <= k < actions.len() implies !(#[trigger] actions[k] is Reload) by {
                    if k < prev.len() {
                        assert(prev[k] == actions[k]);
                    }
                }
            } else {
                let k = reloaded_plugin(prev)->0;
                assert(prev[k as int] == actions[k as int]);
                assert forall|j: int| k < j < actions.len() implies !(#[trigger] actions[j] is Reload) by {
                    if j < prev.len() {
                        assert(prev[j] == actions[j]);
                    }
                }
            }
            if forall|k: int| 0 <= k < actions.len() ==> !(#[trigger] actions[k] is Reload) {
                assert forall|k: int| 0 <= k < prev.len() implies !(#[trigger] prev[k] is Reload) by {
                    assert(prev[k] == actions[k]);
                }
            }
        }
    }
}

} // verus!
