//! The bridge that every page of the app gets.

use vstd::prelude::*;

verus! {

/// The script behind `window.brix`: `invoke(method, args)` posts a numbered
/// request and gives a promise for its reply; `on` and `off` manage the
/// handlers of events.
pub const BRIDGE_JS: &'static str = r#"
(function () {
  if (window.brix) { return; }
  var _seq = 0;
  var _pending = {};
  var _events = {};
  var _post = (window.ipc && window.ipc.postMessage)
    ? function (m) { window.ipc.postMessage(m); }
    : function (m) { window.chrome.webview.postMessage(m); };
  function _handle(json) {
    var m;
    try { m = JSON.parse(json); } catch (e) { return; }
    var p = _pending[m.id];
    if (!p) { return; }
    delete _pending[m.id];
    if (m.ok) { p.resolve(m.result); } else { p.reject(new Error(m.error || 'brix error')); }
  }
  function _handleEvent(name, data) {
    var list = _events[name];
    if (!list) { return; }
    for (var i = 0; i < list.length; i++) {
      try { list[i](data); } catch (e) { }
    }
  }
  function _handleExtension(json) {
    _handle(json);
  }
  window.brix = {
    invoke: function (method, args) {
      return new Promise(function (resolve, reject) {
        var id = ++_seq;
        _pending[id] = { resolve: resolve, reject: reject };
        _post(JSON.stringify({ id: id, method: method, args: args === undefined ? null : args }));
      });
    },
    on: function (name, cb) {
      if (typeof cb !== 'function') { return window.brix; }
      (_events[name] = _events[name] || []).push(cb);
      return window.brix;
    },
    off: function (name, cb) {
      var list = _events[name];
      if (!list) { return window.brix; }
      _events[name] = list.filter(function (f) { return f !== cb; });
      return window.brix;
    },
    _handle: _handle,
    _handleEvent: _handleEvent,
    _handleExtension: _handleExtension,
    hmr: {
      accept: (fn) => { /* Vite HMR would call this on update */ },
      reject: (err) => { /* no-op */ }
    }
  };
})();
"#;

} // verus!
